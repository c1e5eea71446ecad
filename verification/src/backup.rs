//! Backup policy: the four rotation layers, backup file names, which backups
//! a scan keeps and in what order, which old ones a rotation deletes, when a
//! catch-up backup is due, and how a restore rehearsal is reported.

use vstd::prelude::*;
use vstd::string::*;
use vstd::multiset::Multiset;
use chrono::{DateTime, NaiveDateTime};
use crate::error::AppError;

verus! {

broadcast use vstd::seq_lib::group_to_multiset_ensures;

/// Prefix of every backup file name.
pub const FILENAME_PREFIX: &'static str = "app_";

/// Suffix of every backup file name.
pub const FILENAME_SUFFIX: &'static str = ".db";

/// Seconds in a day.
pub const SECS_PER_DAY: i64 = 86400;

/// First second of the year 1 and last second of the year 9999, UTC, as
/// seconds since the Unix epoch: the span in which backup times are named.
pub const MIN_STAMP: i64 = -62135596800;

pub const MAX_STAMP: i64 = 253402300799;

/// A backup rotation layer.
#[derive(Clone, Copy, Debug, PartialEq, Eq, Structural)]
pub enum BackupLayer {
    Exit,
    Hourly,
    Daily,
    Weekly,
}

impl BackupLayer {
    pub open spec fn keep_count(self) -> nat {
        match self {
            BackupLayer::Exit => 5,
            BackupLayer::Hourly => 12,
            BackupLayer::Daily => 14,
            BackupLayer::Weekly => 4,
        }
    }

    pub open spec fn dir_name(self) -> Seq<char> {
        match self {
            BackupLayer::Exit => "exit"@,
            BackupLayer::Hourly => "hourly"@,
            BackupLayer::Daily => "daily"@,
            BackupLayer::Weekly => "weekly"@,
        }
    }

    pub open spec fn catchup_secs(self) -> Option<i64> {
        match self {
            BackupLayer::Daily => Some(SECS_PER_DAY),
            BackupLayer::Weekly => Some(604800i64),
            _ => None,
        }
    }

    /// How many backups the layer keeps; older ones are deleted.
    pub fn max_keep(self) -> (r: usize)
        ensures
            r == self.keep_count(),
    {
        match self {
            BackupLayer::Exit => 5,
            BackupLayer::Hourly => 12,
            BackupLayer::Daily => 14,
            BackupLayer::Weekly => 4,
        }
    }

    /// The layer's directory name under the backup root.
    pub fn subdir(self) -> (r: &'static str)
        ensures
            r@ == self.dir_name(),
    {
        proof {
            reveal_strlit("exit");
            reveal_strlit("hourly");
            reveal_strlit("daily");
            reveal_strlit("weekly");
        }
        match self {
            BackupLayer::Exit => "exit",
            BackupLayer::Hourly => "hourly",
            BackupLayer::Daily => "daily",
            BackupLayer::Weekly => "weekly",
        }
    }

    /// The catch-up period in seconds: a day for the daily layer, a week for
    /// the weekly one; the other layers have none.
    pub fn catchup_interval(self) -> (r: Option<i64>)
        ensures
            r == self.catchup_secs(),
    {
        match self {
            BackupLayer::Daily => Some(SECS_PER_DAY),
            BackupLayer::Weekly => Some(604800),
            BackupLayer::Exit | BackupLayer::Hourly => None,
        }
    }
}

/// The four layers together keep at most 35 backups.
pub proof fn lemma_layers_keep_35_in_all()
    ensures
        BackupLayer::Exit.keep_count() + BackupLayer::Hourly.keep_count() + BackupLayer::Daily.keep_count()
            + BackupLayer::Weekly.keep_count() == 35,
{
}

/// Whether a catch-up backup is due: there is no backup yet, or the latest
/// one (`latest`, seconds) is at least `interval` seconds older than `now`.
pub open spec fn due(latest: Option<i64>, now: i64, interval: i64) -> bool {
    match latest {
        None => true,
        Some(t) => now - t >= interval,
    }
}

/// Decides whether a catch-up backup is due (see `due`).
pub fn is_due(latest: Option<i64>, now: i64, interval: i64) -> (r: bool)
    ensures
        r == due(latest, now, interval),
{
    match latest {
        None => true,
        Some(t) => (now as i128) - (t as i128) >= interval as i128,
    }
}

/// Whether the layer takes a catch-up backup now: only layers with a
/// catch-up period, when `is_due` says so.
pub fn needs_catchup(layer: BackupLayer, latest: Option<i64>, now: i64) -> (r: bool)
    ensures
        r == match layer.catchup_secs() {
            Some(iv) => due(latest, now, iv),
            None => false,
        },
{
    match layer.catchup_interval() {
        Some(iv) => is_due(latest, now, iv),
        None => false,
    }
}

// ───────────────────────────── file names ─────────────────────────────

/// Name for the text that `chrono` writes for the UTC time `secs` seconds
/// after the Unix epoch with the format `%Y%m%d_%H%M%S`.
pub uninterp spec fn chrono_stamp_text(secs: i64) -> Seq<char>;

/// Name for what `chrono`'s `NaiveDateTime::parse_from_str(stem,
/// "%Y%m%d_%H%M%S")` gives, as seconds since the Unix epoch read as UTC
/// (`None` when it fails).
pub uninterp spec fn chrono_stamp_parse(stem: Seq<char>) -> Option<i64>;

/// `DateTime::<Utc>::from_timestamp(secs, 0)` formatted with
/// `%Y%m%d_%H%M%S`; its text is named, not stated. Every second of the
/// years 1 to 9999 is a valid UTC time, so the conversion cannot fail there.
/// In those years every field is written with its full fixed width (four
/// digits of year, two of each other field) and no leap second arises from a
/// whole-second timestamp, so parsing the text back with the same format
/// (`parse_stamp`) gives the same second: that is claimed here.
#[verifier::external_body]
fn stamp_text(secs: i64) -> (r: String)
    requires
        MIN_STAMP <= secs <= MAX_STAMP,
    ensures
        r@ == chrono_stamp_text(secs),
        chrono_stamp_parse(r@) == Some(secs),
{
    DateTime::from_timestamp(secs, 0).expect("time in the years 1 to 9999").format("%Y%m%d_%H%M%S").to_string()
}

/// `NaiveDateTime::parse_from_str(stem, "%Y%m%d_%H%M%S")`, read as UTC and
/// given in seconds since the Unix epoch; its result is named, not stated.
#[verifier::external_body]
fn parse_stamp(stem: &str) -> (r: Option<i64>)
    ensures
        r == chrono_stamp_parse(stem@),
{
    match NaiveDateTime::parse_from_str(stem, "%Y%m%d_%H%M%S") {
        Ok(n) => Some(n.and_utc().timestamp()),
        Err(_) => None,
    }
}

/// `{prefix}{stamp}{suffix}`, the stamp being the UTC time `now` written as
/// `YYYYMMDD_HHMMSS`.
pub fn timestamped_filename(prefix: &str, suffix: &str, now: i64) -> (r: String)
    requires
        MIN_STAMP <= now <= MAX_STAMP,
    ensures
        r@ == prefix@ + chrono_stamp_text(now) + suffix@,
        chrono_stamp_parse(chrono_stamp_text(now)) == Some(now),
{
    let p = String::from_str(prefix);
    let t = stamp_text(now);
    let r = p.concat(t.as_str());
    r.concat(suffix)
}

/// The file name of a backup taken at `now`: `app_YYYYMMDD_HHMMSS.db`.
pub fn generate_filename(now: i64) -> (r: String)
    requires
        MIN_STAMP <= now <= MAX_STAMP,
    ensures
        r@ == "app_"@ + chrono_stamp_text(now) + ".db"@,
        filename_stamp(r@) == Some(now),
{
    let r = timestamped_filename(FILENAME_PREFIX, FILENAME_SUFFIX, now);
    proof {
        reveal_strlit("app_");
        reveal_strlit(".db");
        let t = chrono_stamp_text(now);
        let n = r@;
        assert(n.subrange(0, 4) =~= "app_"@);
        assert(n.subrange(n.len() - 3, n.len() as int) =~= ".db"@);
        assert(n.subrange(4, n.len() - 3) =~= t);
    }
    r
}

/// The part of a backup file name between `app_` and `.db`, when it has both.
pub open spec fn backup_stem(name: Seq<char>) -> Option<Seq<char>> {
    if name.len() >= 7 && name.subrange(0, 4) == "app_"@ && name.subrange(name.len() - 3, name.len() as int) == ".db"@ {
        Some(name.subrange(4, name.len() - 3))
    } else {
        None
    }
}

/// The time a backup file name carries: its stem between `app_` and `.db`
/// must read as `YYYYMMDD_HHMMSS`.
pub open spec fn filename_stamp(name: Seq<char>) -> Option<i64> {
    match backup_stem(name) {
        Some(stem) => chrono_stamp_parse(stem),
        None => None,
    }
}

/// Reads the time out of a backup file name (see `filename_stamp`).
pub fn parse_timestamp_from_filename(name: &str) -> (r: Option<i64>)
    ensures
        r == filename_stamp(name@),
{
    proof {
        reveal_strlit("app_");
        reveal_strlit(".db");
    }
    let n = name.unicode_len();
    if n < 7 {
        return None;
    }
    let ok = name.get_char(0) == 'a' && name.get_char(1) == 'p' && name.get_char(2) == 'p' && name.get_char(3)
        == '_' && name.get_char(n - 3) == '.' && name.get_char(n - 2) == 'd' && name.get_char(n - 1) == 'b';
    proof {
        let s = name@;
        if ok {
            assert(s.subrange(0, 4) =~= "app_"@);
            assert(s.subrange(s.len() - 3, s.len() as int) =~= ".db"@);
        } else {
            if s.subrange(0, 4) == "app_"@ && s.subrange(s.len() - 3, s.len() as int) == ".db"@ {
                assert(s[0] == s.subrange(0, 4)[0]);
                assert(s[1] == s.subrange(0, 4)[1]);
                assert(s[2] == s.subrange(0, 4)[2]);
                assert(s[3] == s.subrange(0, 4)[3]);
                assert(s[s.len() - 3] == s.subrange(s.len() - 3, s.len() as int)[0]);
                assert(s[s.len() - 2] == s.subrange(s.len() - 3, s.len() as int)[1]);
                assert(s[s.len() - 1] == s.subrange(s.len() - 3, s.len() as int)[2]);
            }
        }
    }
    if !ok {
        return None;
    }
    let stem = name.substring_char(4, n - 3);
    parse_stamp(stem)
}

// ───────────────────────────── scanning and rotation ─────────────────────────────

/// A file found in a layer directory: its full path, its file name when
/// that is valid text, and its size.
pub struct DirFile {
    pub path: String,
    pub name: Option<String>,
    pub size_bytes: u64,
}

/// A backup file of a layer, with the time its name carries.
pub struct BackupMetadata {
    pub path: String,
    pub layer: BackupLayer,
    pub created_at: i64,
    pub size_bytes: u64,
}

/// The files that are backups, in the order found, with their times.
pub open spec fn scanned(layer: BackupLayer, files: Seq<DirFile>) -> Seq<BackupMetadata>
    decreases files.len(),
{
    if files.len() == 0 {
        Seq::empty()
    } else {
        let f = files.last();
        let rest = scanned(layer, files.drop_last());
        match f.name {
            Some(n) => match filename_stamp(n@) {
                Some(t) => rest.push(BackupMetadata { path: f.path, layer, created_at: t, size_bytes: f.size_bytes }),
                None => rest,
            },
            None => rest,
        }
    }
}

/// Times ascending (`newest_first` false) or descending (true).
pub open spec fn time_ordered(s: Seq<BackupMetadata>, newest_first: bool) -> bool {
    forall|i: int, j: int|
        0 <= i < j < s.len() ==> if newest_first {
            #[trigger] s[i].created_at >= #[trigger] s[j].created_at
        } else {
            s[i].created_at <= s[j].created_at
        }
}

/// Whether time `a` goes strictly before time `b` in the chosen order.
fn strictly_before(a: i64, b: i64, newest_first: bool) -> (r: bool)
    ensures
        r == if newest_first { a > b } else { a < b },
{
    if newest_first {
        a > b
    } else {
        a < b
    }
}

/// Orders backups by time, oldest first or newest first; the backups are the
/// same, only their order changes.
pub fn sort_by_time(v: Vec<BackupMetadata>, newest_first: bool) -> (r: Vec<BackupMetadata>)
    ensures
        time_ordered(r@, newest_first),
        r@.to_multiset() == v@.to_multiset(),
{
    let mut src = v;
    let mut out: Vec<BackupMetadata> = Vec::new();
    while src.len() > 0
        invariant
            time_ordered(out@, newest_first),
            out@.to_multiset().add(src@.to_multiset()) == v@.to_multiset(),
        decreases src.len(),
    {
        let ghost before = src@;
        let x = src.pop().unwrap();
        proof {
            assert(before == src@.push(x));
        }
        let mut j: usize = 0;
        while j < out.len() && strictly_before(out[j].created_at, x.created_at, newest_first)
            invariant
                j <= out.len(),
                forall|k: int|
                    0 <= k < j ==> if newest_first {
                        #[trigger] out@[k].created_at > x.created_at
                    } else {
                        out@[k].created_at < x.created_at
                    },
            decreases out.len() - j,
        {
            j = j + 1;
        }
        let ghost old_out = out@;
        out.insert(j, x);
        proof {
            assert(out@ == old_out.insert(j as int, x));
            assert forall|a: int, b: int| 0 <= a < b < out@.len() implies if newest_first {
                #[trigger] out@[a].created_at >= #[trigger] out@[b].created_at
            } else {
                out@[a].created_at <= out@[b].created_at
            } by {
                if a < j && b < j {
                    assert(out@[a] == old_out[a] && out@[b] == old_out[b]);
                } else if a < j && b == j {
                    assert(out@[a] == old_out[a]);
                } else if a < j {
                    assert(out@[a] == old_out[a] && out@[b] == old_out[b - 1]);
                } else if a == j {
                    assert(out@[b] == old_out[b - 1]);
                    if j < old_out.len() {
                        assert(old_out[j as int].created_at == old_out[j as int].created_at);
                        if newest_first {
                            assert(old_out[j as int].created_at <= x.created_at);
                        } else {
                            assert(old_out[j as int].created_at >= x.created_at);
                        }
                        if b - 1 > j {
                            assert(old_out[j as int].created_at == old_out[j as int].created_at);
                        }
                    }
                } else {
                    assert(out@[a] == old_out[a - 1] && out@[b] == old_out[b - 1]);
                }
            }
        }
    }
    proof {
        assert(src@.to_multiset() =~= Multiset::empty());
        assert(out@.to_multiset().add(Multiset::empty()) =~= out@.to_multiset());
    }
    out
}

/// The backups among the files of a layer directory, oldest first: files
/// whose name does not carry a time are left out.
pub fn scan_entries(layer: BackupLayer, files: Vec<DirFile>) -> (r: Vec<BackupMetadata>)
    ensures
        time_ordered(r@, false),
        r@.to_multiset() == scanned(layer, files@).to_multiset(),
{
    let mut found: Vec<BackupMetadata> = Vec::new();
    let mut rest = files;
    let ghost all = rest@;
    let mut taken: Vec<DirFile> = Vec::new();
    while rest.len() > 0
        invariant
            all == taken@ + rest@,
            found@ == scanned(layer, taken@),
        decreases rest.len(),
    {
        let f = rest.remove(0);
        let ghost before = taken@;
        match &f.name {
            Some(n) => match parse_timestamp_from_filename(n.as_str()) {
                Some(t) => {
                    found.push(BackupMetadata { path: f.path.clone(), layer, created_at: t, size_bytes: f.size_bytes });
                },
                None => {},
            },
            None => {},
        }
        taken.push(f);
        proof {
            assert(taken@.drop_last() =~= before);
        }
    }
    proof {
        assert(taken@ =~= all);
    }
    sort_by_time(found, false)
}

/// The paths a rotation deletes so that at most `max` backups are left: the
/// first ones of `entries` (with `entries` oldest first, the oldest ones).
pub fn rotation_victims(entries: &Vec<BackupMetadata>, max: usize) -> (r: Vec<String>)
    ensures
        r.len() == if entries.len() <= max { 0 } else { entries.len() - max },
        forall|i: int| 0 <= i < r.len() ==> #[trigger] r[i]@ == entries@[i].path@,
        time_ordered(entries@, false) ==> forall|i: int, j: int|
            0 <= i < r.len() <= j < entries.len() ==> #[trigger] entries@[i].created_at
                <= #[trigger] entries@[j].created_at,
{
    let mut r: Vec<String> = Vec::new();
    if entries.len() <= max {
        return r;
    }
    let n = entries.len() - max;
    let mut i: usize = 0;
    while i < n
        invariant
            n == entries.len() - max,
            n <= entries.len(),
            i <= n,
            r.len() == i,
            forall|k: int| 0 <= k < i ==> #[trigger] r[k]@ == entries@[k].path@,
        decreases n - i,
    {
        r.push(entries[i].path.clone());
        i = i + 1;
    }
    r
}

/// `victims` are the paths of the oldest entries of the backups `found`
/// (any listing of them, in any order): there is an oldest-first ordering of
/// `found` whose first entries are the victims, one each, and whose other
/// entries (the ones kept) are all at least as new.
pub open spec fn oldest_first_victims(found: Seq<BackupMetadata>, victims: Seq<Seq<char>>, keep: int) -> bool {
    &&& victims.len() == if found.len() <= keep { 0 } else { found.len() - keep }
    &&& exists|e: Seq<BackupMetadata>|
        #[trigger] e.to_multiset() == found.to_multiset() && time_ordered(e, false) && (forall|i: int|
            0 <= i < victims.len() ==> #[trigger] victims[i] == e[i].path@) && (forall|i: int, j: int|
            0 <= i < victims.len() <= j < e.len() ==> #[trigger] e[i].created_at <= #[trigger] e[j].created_at)
}

/// The files to delete when a layer directory holding `files` keeps at most
/// `max` backups: only files whose names carry a backup time count, and the
/// oldest of them go first until `max` are left.
pub fn rotation_plan(layer: BackupLayer, files: Vec<DirFile>, max: usize) -> (r: Vec<String>)
    ensures
        oldest_first_victims(scanned(layer, files@), r@.map_values(|p: String| p@), max as int),
{
    let ghost found = scanned(layer, files@);
    let entries = scan_entries(layer, files);
    let r = rotation_victims(&entries, max);
    proof {
        broadcast use vstd::seq_lib::group_to_multiset_ensures;
        assert(entries@.len() == entries@.to_multiset().len());
        assert(found.len() == found.to_multiset().len());
        let rv = r@.map_values(|p: String| p@);
        assert forall|i: int| 0 <= i < rv.len() implies #[trigger] rv[i] == entries@[i].path@ by {
            assert(rv[i] == r@[i]@);
        }
        assert(oldest_first_victims(found, rv, max as int));
    }
    r
}

/// The time of the newest backup of a scan that lists them oldest first.
pub fn latest_created_at(entries: &Vec<BackupMetadata>) -> (r: Option<i64>)
    ensures
        entries.len() == 0 ==> r is None,
        entries.len() > 0 ==> r == Some(entries@.last().created_at),
{
    if entries.len() == 0 {
        None
    } else {
        Some(entries[entries.len() - 1].created_at)
    }
}

// ───────────────────────────── taking a backup ─────────────────────────────

pub open spec fn msg_cipher_only() -> Seq<char> {
    "암호화 빌드(--features cipher)에서만 백업이 가능합니다."@
}

/// Copies the database `source` to `dest`. This build has no encrypted
/// database engine, so it refuses with a backup error that says so.
pub fn perform_backup_with_cipher(source: &str, dest: &str) -> (r: Result<(), AppError>)
    ensures
        r matches Err(e) && e is Backup && e.message_view() == msg_cipher_only(),
{
    Err(AppError::Backup(String::from_str("암호화 빌드(--features cipher)에서만 백업이 가능합니다.")))
}

// ───────────────────────────── restore rehearsal ─────────────────────────────

/// A table checked by a rehearsal with its row count.
pub struct TableCount {
    pub table: String,
    pub count: i64,
}

/// What a restore rehearsal found.
pub struct RehearsalResult {
    pub backup_path: String,
    pub size_bytes: u64,
    pub success: bool,
    pub integrity_detail: Option<String>,
    pub table_counts: Vec<TableCount>,
    pub total_rows: i64,
}

/// The tables whose rows a rehearsal counts.
pub fn rehearsal_tables() -> (r: Vec<&'static str>)
    ensures
        r@.len() == 6,
        r@[0]@ == "students"@,
        r@[1]@ == "student_schedules"@,
        r@[2]@ == "regular_attendances"@,
        r@[3]@ == "makeup_attendances"@,
        r@[4]@ == "bills"@,
        r@[5]@ == "payments"@,
{
    vec!["students", "student_schedules", "regular_attendances", "makeup_attendances", "bills", "payments"]
}

/// The query that counts a table's rows.
pub fn count_query(table: &str) -> (r: String)
    ensures
        r@ == "SELECT COUNT(*) FROM "@ + table@,
{
    String::from_str("SELECT COUNT(*) FROM ").concat(table)
}

/// Lines joined with a line break between them.
pub open spec fn joined_lines(rows: Seq<String>) -> Seq<char>
    decreases rows.len(),
{
    if rows.len() == 0 {
        Seq::empty()
    } else if rows.len() == 1 {
        rows[0]@
    } else {
        joined_lines(rows.drop_last()) + seq!['\n'] + rows.last()@
    }
}

/// The verdict of an integrity check: passed when it answered exactly one
/// row, `ok`; otherwise its rows joined by line breaks.
pub fn integrity_verdict(rows: &Vec<String>) -> (r: Result<(), String>)
    ensures
        rows.len() == 1 && rows@[0]@ == "ok"@ ==> r is Ok,
        !(rows.len() == 1 && rows@[0]@ == "ok"@) ==> (r matches Err(t) && t@ == joined_lines(rows@)),
{
    proof {
        reveal_strlit("ok");
    }
    if rows.len() == 1 {
        let only = rows[0].as_str();
        if only.unicode_len() == 2 && only.get_char(0) == 'o' && only.get_char(1) == 'k' {
            proof {
                assert(only@ =~= "ok"@);
            }
            return Ok(());
        }
        proof {
            assert(rows@[0]@ != "ok"@ || (only@.len() == 2 && only@[0] == 'o' && only@[1] == 'k'));
        }
    }
    let mut text = String::new();
    let mut i: usize = 0;
    while i < rows.len()
        invariant
            i <= rows.len(),
            text@ == joined_lines(rows@.subrange(0, i as int)),
        decreases rows.len() - i,
    {
        proof {
            let s = rows@.subrange(0, i as int + 1);
            assert(s.drop_last() =~= rows@.subrange(0, i as int));
            assert(s.last() == rows@[i as int]);
        }
        if i > 0 {
            text = text.concat("\n");
        }
        text = text.concat(rows[i].as_str());
        proof {
            reveal_strlit("\n");
            if i == 0 {
                assert(text@ =~= rows@[0]@);
            }
        }
        i = i + 1;
    }
    proof {
        assert(rows@.subrange(0, rows.len() as int) =~= rows@);
    }
    Err(text)
}

/// Total of the row counts.
pub open spec fn rows_total(counts: Seq<TableCount>) -> int
    decreases counts.len(),
{
    if counts.len() == 0 {
        0
    } else {
        rows_total(counts.drop_last()) + counts.last().count
    }
}

/// Every partial total of the row counts fits in an `i64`.
pub open spec fn totals_fit(counts: Seq<TableCount>) -> bool {
    forall|k: int| 0 <= k <= counts.len() ==> i64::MIN <= #[trigger] rows_total(counts.subrange(0, k)) <= i64::MAX
}

/// Reports a rehearsal of the backup at `backup_path`: counted tables mean
/// it passed, with their total; a reason means it failed, with no counts.
pub fn rehearsal_outcome(backup_path: String, size_bytes: u64, findings: Result<Vec<TableCount>, String>) -> (r:
    RehearsalResult)
    requires
        findings matches Ok(c) ==> totals_fit(c@),
    ensures
        r.backup_path == backup_path,
        r.size_bytes == size_bytes,
        match findings {
            Ok(c) => r.success && r.integrity_detail is None && r.table_counts@ == c@ && r.total_rows == rows_total(c@),
            Err(t) => !r.success && r.integrity_detail == Some(t) && r.table_counts@.len() == 0 && r.total_rows == 0,
        },
{
    match findings {
        Ok(counts) => {
            let mut total: i64 = 0;
            let mut i: usize = 0;
            while i < counts.len()
                invariant
                    i <= counts.len(),
                    totals_fit(counts@),
                    total == rows_total(counts@.subrange(0, i as int)),
                decreases counts.len() - i,
            {
                proof {
                    let s = counts@.subrange(0, i as int + 1);
                    assert(s.drop_last() =~= counts@.subrange(0, i as int));
                    assert(rows_total(counts@.subrange(0, i as int + 1)) <= i64::MAX);
                    assert(rows_total(counts@.subrange(0, i as int + 1)) >= i64::MIN);
                }
                total = total + counts[i].count;
                i = i + 1;
            }
            proof {
                assert(counts@.subrange(0, counts.len() as int) =~= counts@);
            }
            RehearsalResult {
                backup_path,
                size_bytes,
                success: true,
                integrity_detail: None,
                table_counts: counts,
                total_rows: total,
            }
        },
        Err(t) => RehearsalResult {
            backup_path,
            size_bytes,
            success: false,
            integrity_detail: Some(t),
            table_counts: Vec::new(),
            total_rows: 0,
        },
    }
}

} // verus!
