//! The database connection rules: the connection URL of a database file,
//! the guards that refuse to create a database where one should already
//! exist, the pragmas each connection gets, when a snapshot precedes
//! migrations, and the once-initialised pool slot.

use vstd::prelude::*;
use vstd::string::*;
use crate::error::AppError;
use crate::text::push_char;

verus! {

/// Connections the pool keeps (SQLite has a single writer).
pub const MAX_CONNECTIONS: u32 = 1;

/// Seconds to wait for a free connection.
pub const ACQUIRE_TIMEOUT_SECS: u64 = 30;

/// The path with every backslash turned into a slash.
pub open spec fn forward_slashes(p: Seq<char>) -> Seq<char> {
    p.map_values(|c: char| if c == '\\' { '/' } else { c })
}

/// The path without its leading slashes.
pub open spec fn without_leading_slashes(p: Seq<char>) -> Seq<char>
    decreases p.len(),
{
    if p.len() > 0 && p[0] == '/' {
        without_leading_slashes(p.drop_first())
    } else {
        p
    }
}

/// `sqlite:///` followed by the absolute path in forward slashes, without its
/// leading slashes.
pub open spec fn url_of(abs: Seq<char>) -> Seq<char> {
    "sqlite:///"@ + without_leading_slashes(forward_slashes(abs))
}

/// The connection URL of a database file given by its absolute path.
pub fn db_url(abs_path: &str) -> (r: String)
    ensures
        r@ == url_of(abs_path@),
{
    let n = abs_path.unicode_len();
    let mut start: usize = 0;
    proof {
        assert(forward_slashes(abs_path@).subrange(0, n as int) =~= forward_slashes(abs_path@));
    }
    while start < n && (abs_path.get_char(start) == '/' || abs_path.get_char(start) == '\\')
        invariant
            n == abs_path@.len(),
            start <= n,
            without_leading_slashes(forward_slashes(abs_path@)) == without_leading_slashes(
                forward_slashes(abs_path@).subrange(start as int, n as int),
            ),
        decreases n - start,
    {
        proof {
            let f = forward_slashes(abs_path@).subrange(start as int, n as int);
            assert(f[0] == '/');
            assert(f.drop_first() =~= forward_slashes(abs_path@).subrange(start + 1, n as int));
        }
        start = start + 1;
    }
    let mut out = String::from_str("sqlite:///");
    let ghost head = out@;
    proof {
        reveal_strlit("sqlite:///");
        let f = forward_slashes(abs_path@).subrange(start as int, n as int);
        if f.len() > 0 {
            assert(f[0] != '/');
        }
    }
    let mut i: usize = start;
    while i < n
        invariant
            n == abs_path@.len(),
            start <= i <= n,
            head == "sqlite:///"@,
            out@ == head + forward_slashes(abs_path@).subrange(start as int, i as int),
        decreases n - i,
    {
        let c = abs_path.get_char(i);
        proof {
            reveal_strlit("/");
        }
        if c == '\\' {
            out = out.concat("/");
        } else {
            out = push_char(out, c);
        }
        proof {
            assert(forward_slashes(abs_path@).subrange(start as int, i + 1) =~= forward_slashes(abs_path@).subrange(
                start as int,
                i as int,
            ).push(if c == '\\' { '/' } else { c }));
        }
        i = i + 1;
    }
    out
}


pub open spec fn msg_db_missing(salt_present: bool) -> Seq<char> {
    "DB 파일(app.db)이 없습니다. 클라우드 동기화가 완료된 후 다시 시도해 주세요."@ + if salt_present {
        ""@
    } else {
        " (설정 파일 salt.bin 도 확인되지 않습니다)"@
    }
}

pub open spec fn msg_data_dir_missing() -> Seq<char> {
    "데이터 폴더가 없습니다. 클라우드 동기화가 완료된 후 다시 시도해 주세요."@
}

/// Once setup is done, the database file must exist: a missing file is
/// refused (its message also notes a missing salt file) rather than created
/// empty. Before setup a missing file is fine.
pub fn check_db_present(setup_done: bool, db_exists: bool, salt_exists: bool) -> (r: Result<(), AppError>)
    ensures
        setup_done && !db_exists ==> (r matches Err(e) && e is Config && e.message_view() == msg_db_missing(salt_exists)),
        !(setup_done && !db_exists) ==> r is Ok,
{
    if setup_done && !db_exists {
        let m = String::from_str("DB 파일(app.db)이 없습니다. 클라우드 동기화가 완료된 후 다시 시도해 주세요.");
        let hint = if salt_exists {
            ""
        } else {
            " (설정 파일 salt.bin 도 확인되지 않습니다)"
        };
        return Err(AppError::Config(m.concat(hint)));
    }
    Ok(())
}

/// Once setup is done, the data folder must exist; it is created only before
/// setup.
pub fn check_data_dir(setup_done: bool, dir_exists: bool) -> (r: Result<(), AppError>)
    ensures
        setup_done && !dir_exists ==> (r matches Err(e) && e is Config && e.message_view() == msg_data_dir_missing()),
        !(setup_done && !dir_exists) ==> r is Ok,
{
    if setup_done && !dir_exists {
        return Err(AppError::Config(String::from_str("데이터 폴더가 없습니다. 클라우드 동기화가 완료된 후 다시 시도해 주세요.")));
    }
    Ok(())
}

/// A new database file may be created only before setup is done.
pub fn create_if_missing(setup_done: bool) -> (r: bool)
    ensures
        r == !setup_done,
{
    !setup_done
}

/// The pragmas every new connection runs, in order.
pub fn connection_pragmas() -> (r: Vec<&'static str>)
    ensures
        r@.len() == 5,
        r@[0]@ == "PRAGMA journal_mode=WAL"@,
        r@[1]@ == "PRAGMA cache_size=-8000"@,
        r@[2]@ == "PRAGMA foreign_keys=ON"@,
        r@[3]@ == "PRAGMA busy_timeout=30000"@,
        r@[4]@ == "PRAGMA journal_size_limit=67108864"@,
{
    vec![
        "PRAGMA journal_mode=WAL",
        "PRAGMA cache_size=-8000",
        "PRAGMA foreign_keys=ON",
        "PRAGMA busy_timeout=30000",
        "PRAGMA journal_size_limit=67108864",
    ]
}

/// The largest of the versions, 0 when there are none.
pub open spec fn max_version(v: Seq<i64>) -> i64
    decreases v.len(),
{
    if v.len() == 0 {
        0
    } else {
        let m = max_version(v.drop_last());
        if v.last() > m {
            v.last()
        } else {
            m
        }
    }
}

/// Whether a snapshot is taken before migrating: only for an existing
/// database (`applied` is the newest applied version) that is behind the
/// newest embedded version. A new database has nothing to keep.
pub fn has_pending_migrations(embedded: &Vec<i64>, applied: Option<i64>) -> (r: bool)
    ensures
        r == match applied {
            Some(v) => max_version(embedded@) > v,
            None => false,
        },
{
    let mut m: i64 = 0;
    let mut i: usize = 0;
    while i < embedded.len()
        invariant
            i <= embedded.len(),
            m == max_version(embedded@.subrange(0, i as int)),
        decreases embedded.len() - i,
    {
        proof {
            let s = embedded@.subrange(0, i as int + 1);
            assert(s.drop_last() =~= embedded@.subrange(0, i as int));
        }
        if embedded[i] > m {
            m = embedded[i];
        }
        i = i + 1;
    }
    proof {
        assert(embedded@.subrange(0, embedded.len() as int) =~= embedded@);
    }
    match applied {
        Some(v) => m > v,
        None => false,
    }
}

pub open spec fn msg_pool_locked() -> Seq<char> {
    "DB가 아직 잠금 해제되지 않았습니다."@
}

/// The connection pool, set once after unlocking.
pub struct PoolCell<T> {
    slot: Option<T>,
}

impl<T> PoolCell<T> {
    /// The pool, once set.
    pub closed spec fn view(&self) -> Option<T> {
        self.slot
    }

    /// A slot with no pool yet.
    pub fn new() -> (r: PoolCell<T>)
        ensures
            r.view() is None,
    {
        PoolCell { slot: None }
    }

    /// Whether the pool was set.
    pub fn is_initialized(&self) -> (r: bool)
        ensures
            r == self.view() is Some,
    {
        self.slot.is_some()
    }

    /// The pool; before unlocking, a configuration error that says the
    /// database is still locked.
    pub fn pool(&self) -> (r: Result<&T, AppError>)
        ensures
            match self.view() {
                Some(p) => r matches Ok(x) && *x == p,
                None => r matches Err(e) && e is Config && e.message_view() == msg_pool_locked(),
            },
    {
        match &self.slot {
            Some(p) => Ok(p),
            None => Err(AppError::Config(String::from_str("DB가 아직 잠금 해제되지 않았습니다."))),
        }
    }

    /// Sets the pool unless one is set already (setting is idempotent: the
    /// first pool stays).
    pub fn install(&mut self, pool: T)
        ensures
            final(self).view() == match old(self).view() {
                Some(p) => Some(p),
                None => Some(pool),
            },
    {
        if self.slot.is_none() {
            self.slot = Some(pool);
        }
    }
}

} // verus!
