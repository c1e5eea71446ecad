//! Text helpers: lexicographic ordering of character sequences, decimal
//! rendering of integers and ASCII digit tests.

use vstd::prelude::*;
use vstd::string::*;

verus! {

/// Strict lexicographic order of two character sequences (the order of `str`
/// comparison, since UTF-8 byte order agrees with code point order).
pub open spec fn text_lt(a: Seq<char>, b: Seq<char>) -> bool
    decreases a.len(),
{
    if a.len() == 0 {
        b.len() > 0
    } else if b.len() == 0 {
        false
    } else if a[0] != b[0] {
        (a[0] as int) < (b[0] as int)
    } else {
        text_lt(a.drop_first(), b.drop_first())
    }
}

/// Non-strict lexicographic order.
pub open spec fn text_le(a: Seq<char>, b: Seq<char>) -> bool {
    a == b || text_lt(a, b)
}

proof fn lemma_text_lt_step(a: Seq<char>, b: Seq<char>, i: int)
    requires
        0 <= i < a.len(),
        i < b.len(),
        a.subrange(0, i) == b.subrange(0, i),
        a[i] == b[i],
    ensures
        text_lt(a.skip(i), b.skip(i)) == text_lt(a.skip(i + 1), b.skip(i + 1)),
{
    assert(a.skip(i).drop_first() =~= a.skip(i + 1));
    assert(b.skip(i).drop_first() =~= b.skip(i + 1));
}

/// Compares two strings lexicographically; `true` when `a < b`.
pub fn str_lt(a: &str, b: &str) -> (r: bool)
    ensures
        r == text_lt(a@, b@),
{
    let la = a.unicode_len();
    let lb = b.unicode_len();
    let mut i: usize = 0;
    assert(a@.skip(0) =~= a@);
    assert(b@.skip(0) =~= b@);
    while i < la && i < lb
        invariant
            la == a@.len(),
            lb == b@.len(),
            i <= la,
            i <= lb,
            a@.subrange(0, i as int) == b@.subrange(0, i as int),
            text_lt(a@, b@) == text_lt(a@.skip(i as int), b@.skip(i as int)),
        decreases la - i,
    {
        let ca = a.get_char(i);
        let cb = b.get_char(i);
        if ca != cb {
            assert(a@.skip(i as int)[0] == ca);
            assert(b@.skip(i as int)[0] == cb);
            return (ca as u32) < (cb as u32);
        }
        proof {
            lemma_text_lt_step(a@, b@, i as int);
            assert(a@.subrange(0, i + 1) =~= a@.subrange(0, i as int).push(ca));
            assert(b@.subrange(0, i + 1) =~= b@.subrange(0, i as int).push(cb));
        }
        i = i + 1;
    }
    i < lb && i == la
}

/// Trichotomy of the lexicographic order.
pub proof fn lemma_text_trichotomy(a: Seq<char>, b: Seq<char>)
    ensures
        text_lt(a, b) ==> !text_lt(b, a) && a != b,
        !text_lt(b, a) <==> text_le(a, b),
    decreases a.len(),
{
    if a.len() > 0 && b.len() > 0 && a[0] == b[0] {
        lemma_text_trichotomy(a.drop_first(), b.drop_first());
        if a.drop_first() == b.drop_first() {
            assert(a =~= seq![a[0]] + a.drop_first());
            assert(b =~= seq![b[0]] + b.drop_first());
        }
        if a == b {
            assert(a.drop_first() == b.drop_first());
        }
    } else if a.len() == 0 && b.len() == 0 {
        assert(a =~= b);
    } else if a.len() > 0 && b.len() > 0 {
        assert((a[0] as int) != (b[0] as int));
        assert(a != b);
    }
}

/// The lexicographic order is transitive.
pub proof fn lemma_text_lt_trans(a: Seq<char>, b: Seq<char>, c: Seq<char>)
    requires
        text_lt(a, b),
        text_le(b, c),
    ensures
        text_lt(a, c),
    decreases a.len(),
{
    if b != c {
        if a.len() > 0 && a[0] == b[0] && b[0] == c[0] {
            lemma_text_lt_trans(a.drop_first(), b.drop_first(), c.drop_first());
        }
    }
}

/// The non-strict lexicographic order is transitive.
pub proof fn lemma_text_le_trans(a: Seq<char>, b: Seq<char>, c: Seq<char>)
    requires
        text_le(a, b),
        text_le(b, c),
    ensures
        text_le(a, c),
{
    if a != b {
        lemma_text_lt_trans(a, b, c);
    }
}

/// A common prefix does not change the order of two texts.
pub proof fn lemma_text_lt_common_prefix(p: Seq<char>, a: Seq<char>, b: Seq<char>)
    ensures
        text_lt(p + a, p + b) == text_lt(a, b),
    decreases p.len(),
{
    if p.len() > 0 {
        assert((p + a).drop_first() =~= p.drop_first() + a);
        assert((p + b).drop_first() =~= p.drop_first() + b);
        assert((p + a)[0] == p[0] && (p + b)[0] == p[0]);
        lemma_text_lt_common_prefix(p.drop_first(), a, b);
    } else {
        assert(p + a =~= a);
        assert(p + b =~= b);
    }
}

/// The two-digit, zero-padded text of a number below 100.
pub proof fn lemma_two_digit_text(n: nat)
    requires
        n < 100,
    ensures
        zero_pad(nat_text(n), 2) =~= seq![digit_char((n / 10) as int), digit_char((n % 10) as int)],
{
    if n < 10 {
        assert(digit_char(0) == '0');
        assert(nat_text(n) == seq![digit_char(n as int)]);
    } else {
        assert(nat_text(n / 10) == seq![digit_char((n / 10) as int)]);
        assert(nat_text(n) == nat_text(n / 10).push(digit_char((n % 10) as int)));
    }
}

/// Two-digit, zero-padded texts are in the order of their numbers.
pub proof fn lemma_two_digit_text_lt(i: nat, j: nat)
    requires
        i < j < 100,
    ensures
        text_lt(zero_pad(nat_text(i), 2), zero_pad(nat_text(j), 2)),
{
    lemma_two_digit_text(i);
    lemma_two_digit_text(j);
    let a = zero_pad(nat_text(i), 2);
    let b = zero_pad(nat_text(j), 2);
    assert(a[0] == digit_char((i / 10) as int) && b[0] == digit_char((j / 10) as int));
    if i / 10 == j / 10 {
        assert(a.drop_first() =~= seq![digit_char((i % 10) as int)]);
        assert(b.drop_first() =~= seq![digit_char((j % 10) as int)]);
        assert(i % 10 < j % 10);
        assert(text_lt(a.drop_first(), b.drop_first()));
    } else {
        assert(i / 10 < j / 10);
    }
}

/// `true` when `a <= b` lexicographically.
pub fn str_le(a: &str, b: &str) -> (r: bool)
    ensures
        r == text_le(a@, b@),
{
    proof {
        lemma_text_trichotomy(a@, b@);
    }
    !str_lt(b, a)
}

/// `true` when the two strings hold the same characters.
pub fn str_eq(a: &str, b: &str) -> (r: bool)
    ensures
        r == (a@ == b@),
{
    proof {
        lemma_text_trichotomy(a@, b@);
        lemma_text_trichotomy(b@, a@);
    }
    !str_lt(a, b) && !str_lt(b, a)
}

} // verus!

verus! {

/// The character of a decimal digit `0..=9`.
pub open spec fn digit_char(d: int) -> char {
    (d + 48) as char
}

/// Decimal digits of a natural number, most significant first, no padding.
pub open spec fn nat_text(n: nat) -> Seq<char>
    decreases n,
{
    if n < 10 {
        seq![digit_char(n as int)]
    } else {
        nat_text(n / 10).push(digit_char((n % 10) as int))
    }
}

/// Decimal rendering of an integer as `Display` writes it: a leading `-` for
/// negative values.
pub open spec fn int_text(n: int) -> Seq<char> {
    if n < 0 {
        seq!['-'] + nat_text((-n) as nat)
    } else {
        nat_text(n as nat)
    }
}

/// `s` padded on the left with `'0'` up to `width` characters.
pub open spec fn zero_pad(s: Seq<char>, width: nat) -> Seq<char> {
    if s.len() >= width {
        s
    } else {
        Seq::new((width - s.len()) as nat, |i: int| '0') + s
    }
}

/// Rendering of an integer by the `{:0w}` format: the sign counts toward the
/// width and the zeros stand between the sign and the digits.
pub open spec fn padded_int_text(n: int, width: nat) -> Seq<char> {
    if n < 0 {
        seq!['-'] + zero_pad(nat_text((-n) as nat), if width > 0 { (width - 1) as nat } else { 0 })
    } else {
        zero_pad(nat_text(n as nat), width)
    }
}

/// `true` for the ten ASCII decimal digit characters.
pub open spec fn is_digit(c: char) -> bool {
    '0' <= c && c <= '9'
}

/// Value of an ASCII digit character.
pub open spec fn digit_value(c: char) -> int {
    (c as int) - 48
}

/// `String::push`: `s` followed by `c`.
#[verifier::external_body]
pub(crate) fn push_char(s: String, c: char) -> (r: String)
    ensures
        r@ == s@.push(c),
{
    let mut s = s;
    s.push(c);
    s
}

/// The character of a decimal digit.
fn digit_to_char(d: u64) -> (c: char)
    requires
        d < 10,
    ensures
        c == digit_char(d as int),
{
    let b: u8 = 48u8 + d as u8;
    b as char
}

/// Decimal digits of a natural number, appended to `s`.
fn push_nat_text(s: String, n: u64) -> (r: String)
    ensures
        r@ == s@ + nat_text(n as nat),
    decreases n,
{
    if n < 10 {
        let r = push_char(s, digit_to_char(n));
        proof {
            assert(nat_text(n as nat) == seq![digit_char(n as int)]);
            assert(s@.push(digit_char(n as int)) =~= s@ + seq![digit_char(n as int)]);
        }
        r
    } else {
        let t = push_nat_text(s, n / 10);
        let r = push_char(t, digit_to_char(n % 10));
        proof {
            assert(nat_text(n as nat) == nat_text((n / 10) as nat).push(digit_char((n % 10) as int)));
            assert(s@ + nat_text((n / 10) as nat).push(digit_char((n % 10) as int)) =~= (s@ + nat_text(
                (n / 10) as nat,
            )).push(digit_char((n % 10) as int)));
        }
        r
    }
}

/// Number of decimal digits of a natural number.
fn digit_count(n: u64) -> (c: u64)
    ensures
        c as int == nat_text(n as nat).len(),
        1 <= c <= n as int + 1,
    decreases n,
{
    if n < 10 {
        1
    } else {
        let c = digit_count(n / 10);
        proof {
            assert(nat_text(n as nat) == nat_text((n / 10) as nat).push(digit_char((n % 10) as int)));
        }
        c + 1
    }
}

/// `s` followed by `k` zero characters.
fn push_zeros(s: String, k: u64) -> (r: String)
    ensures
        r@ == s@ + Seq::new(k as nat, |i: int| '0'),
    decreases k,
{
    if k == 0 {
        proof {
            assert(s@ + Seq::new(0nat, |i: int| '0') =~= s@);
        }
        s
    } else {
        let t = push_zeros(s, k - 1);
        let r = push_char(t, '0');
        proof {
            assert(s@ + Seq::new(k as nat, |i: int| '0') =~= (s@ + Seq::new((k - 1) as nat, |i: int| '0')).push(
                '0',
            ));
        }
        r
    }
}

/// `s` followed by the digits of `n`, zero-padded on the left to `width`.
fn push_zero_padded(s: String, n: u64, width: u64) -> (r: String)
    ensures
        r@ == s@ + zero_pad(nat_text(n as nat), width as nat),
{
    let c = digit_count(n);
    if c >= width {
        push_nat_text(s, n)
    } else {
        let t = push_zeros(s, width - c);
        let r = push_nat_text(t, n);
        proof {
            let z = Seq::new((width - c) as nat, |i: int| '0');
            assert(s@ + z + nat_text(n as nat) =~= s@ + (z + nat_text(n as nat)));
        }
        r
    }
}

/// `s` followed by `n` as the `{:0w}` format writes it (see `padded_int_text`).
pub(crate) fn push_padded_int(s: String, n: i64, width: u64) -> (r: String)
    ensures
        r@ == s@ + padded_int_text(n as int, width as nat),
{
    if n < 0 {
        let a: u64 = if n == i64::MIN {
            9223372036854775808u64
        } else {
            (-n) as u64
        };
        let w = if width > 0 { width - 1 } else { 0 };
        let t = push_char(s, '-');
        let r = push_zero_padded(t, a, w);
        proof {
            assert(s@.push('-') + zero_pad(nat_text(a as nat), w as nat) =~= s@ + (seq!['-'] + zero_pad(
                nat_text(a as nat),
                w as nat,
            )));
        }
        r
    } else {
        push_zero_padded(s, n as u64, width)
    }
}

/// Renders an integer in decimal, as `ToString` of `i64` writes it.
pub(crate) fn i64_text(n: i64) -> (r: String)
    ensures
        r@ == int_text(n as int),
{
    if n < 0 {
        let a: u64 = if n == i64::MIN {
            9223372036854775808u64
        } else {
            (-n) as u64
        };
        let s = push_char(String::new(), '-');
        let r = push_nat_text(s, a);
        proof {
            assert(Seq::<char>::empty().push('-') =~= seq!['-']);
        }
        r
    } else {
        let r = push_nat_text(String::new(), n as u64);
        proof {
            assert(Seq::<char>::empty() + nat_text(n as nat) =~= nat_text(n as nat));
        }
        r
    }
}

} // verus!

verus! {

// ───────────────────────────── splitting ─────────────────────────────

/// The pieces of `s` between occurrences of `sep`, as `str::split` with a
/// `char` pattern yields them (always at least one piece).
pub open spec fn split_on(s: Seq<char>, sep: char) -> Seq<Seq<char>>
    decreases s.len(),
{
    if s.len() == 0 {
        seq![Seq::<char>::empty()]
    } else {
        let rest = split_on(s.drop_last(), sep);
        if s.last() == sep {
            rest.push(Seq::<char>::empty())
        } else {
            rest.update(rest.len() - 1, rest.last().push(s.last()))
        }
    }
}

proof fn lemma_split_nonempty(s: Seq<char>, sep: char)
    ensures
        split_on(s, sep).len() >= 1,
    decreases s.len(),
{
    if s.len() > 0 {
        lemma_split_nonempty(s.drop_last(), sep);
    }
}

/// The pieces of `s` between the occurrences of `sep` (`str::split(sep)`).
pub fn split_char(s: &str, sep: char) -> (r: Vec<String>)
    ensures
        r@.map_values(|x: String| x@) == split_on(s@, sep),
{
    let n = s.unicode_len();
    let mut out: Vec<String> = Vec::new();
    let mut start: usize = 0;
    let mut i: usize = 0;
    assert(s@.subrange(0, 0) =~= Seq::<char>::empty());
    while i < n
        invariant
            n == s@.len(),
            start <= i <= n,
            out@.map_values(|x: String| x@).push(s@.subrange(start as int, i as int)) == split_on(
                s@.subrange(0, i as int),
                sep,
            ),
        decreases n - i,
    {
        let c = s.get_char(i);
        let ghost before = out@.map_values(|x: String| x@);
        proof {
            let p = s@.subrange(0, i + 1);
            assert(p.drop_last() =~= s@.subrange(0, i as int));
            assert(p.last() == c);
            lemma_split_nonempty(s@.subrange(0, i as int), sep);
        }
        if c == sep {
            let piece = s.substring_char(start, i);
            out.push(String::from_str(piece));
            start = i + 1;
            assert(out@.map_values(|x: String| x@) =~= before.push(piece@));
            assert(s@.subrange(start as int, i + 1) =~= Seq::<char>::empty());
        } else {
            assert(s@.subrange(start as int, i + 1) =~= s@.subrange(start as int, i as int).push(c));
            let ghost whole = split_on(s@.subrange(0, i as int), sep);
            assert(whole =~= before.push(s@.subrange(start as int, i as int)));
            assert(before.push(s@.subrange(start as int, i + 1)) =~= whole.update(
                whole.len() - 1,
                whole.last().push(c),
            ));
        }
        i = i + 1;
    }
    let piece = s.substring_char(start, n);
    let ghost before = out@.map_values(|x: String| x@);
    out.push(String::from_str(piece));
    assert(out@.map_values(|x: String| x@) =~= before.push(piece@));
    assert(s@.subrange(0, n as int) =~= s@);
    out
}

// ───────────────────────────── integer text ─────────────────────────────

/// Every character is an ASCII digit.
pub open spec fn all_digits(s: Seq<char>) -> bool {
    forall|i: int| 0 <= i < s.len() ==> is_digit(#[trigger] s[i])
}

/// The number written by a string of decimal digits.
pub open spec fn digits_num(s: Seq<char>) -> int
    decreases s.len(),
{
    if s.len() == 0 {
        0
    } else {
        digits_num(s.drop_last()) * 10 + digit_value(s.last())
    }
}

/// The magnitude text of an integer literal as `str::parse` reads it: the
/// text without its sign.
pub open spec fn unsigned_body(s: Seq<char>) -> Seq<char> {
    if s.len() > 0 && s[0] == '+' { s.drop_first() } else { s }
}

/// What `str::parse::<u32>` gives: an optional `+`, then at least one ASCII
/// digit, the value fitting in `u32`.
pub open spec fn u32_text_value(s: Seq<char>) -> Option<int> {
    let d = unsigned_body(s);
    if d.len() > 0 && all_digits(d) && digits_num(d) <= u32::MAX {
        Some(digits_num(d))
    } else {
        None
    }
}

/// What `str::parse::<i32>` gives: an optional sign, then at least one ASCII
/// digit, the value fitting in `i32`.
pub open spec fn i32_text_value(s: Seq<char>) -> Option<int> {
    let neg = s.len() > 0 && s[0] == '-';
    let d = if s.len() > 0 && (s[0] == '+' || s[0] == '-') { s.drop_first() } else { s };
    let v = if neg { -digits_num(d) } else { digits_num(d) };
    if d.len() > 0 && all_digits(d) && i32::MIN <= v <= i32::MAX {
        Some(v)
    } else {
        None
    }
}

proof fn lemma_digits_num_prefix(s: Seq<char>, k: int)
    requires
        0 <= k <= s.len(),
        all_digits(s),
    ensures
        0 <= digits_num(s.subrange(0, k)) <= digits_num(s),
    decreases s.len() - k,
{
    if k < s.len() {
        lemma_digits_num_prefix(s, k + 1);
        assert(s.subrange(0, k + 1).drop_last() =~= s.subrange(0, k));
        assert(is_digit(s[k]));
    } else {
        assert(s.subrange(0, k) =~= s);
    }
    lemma_digits_num_nonneg(s.subrange(0, k));
}

proof fn lemma_digits_num_nonneg(s: Seq<char>)
    requires
        all_digits(s),
    ensures
        digits_num(s) >= 0,
    decreases s.len(),
{
    if s.len() > 0 {
        assert(all_digits(s.drop_last()));
        assert(is_digit(s[s.len() - 1]));
        lemma_digits_num_nonneg(s.drop_last());
    }
}

/// Reads the digits `s[from..]`; `None` when a character is no digit or the
/// value exceeds `limit`.
fn digits_up_to(s: &str, from: usize, limit: u64) -> (r: Option<u64>)
    requires
        from <= s@.len(),
        limit < u64::MAX / 16,
    ensures
        ({
            let d = s@.subrange(from as int, s@.len() as int);
            match r {
                Some(v) => all_digits(d) && v == digits_num(d) && v <= limit,
                None => !(all_digits(d) && digits_num(d) <= limit),
            }
        }),
{
    let n = s.unicode_len();
    let ghost d = s@.subrange(from as int, n as int);
    let mut acc: u64 = 0;
    let mut i: usize = from;
    assert(d.subrange(0, 0) =~= Seq::<char>::empty());
    while i < n
        invariant
            n == s@.len(),
            from <= i <= n,
            d == s@.subrange(from as int, n as int),
            all_digits(d.subrange(0, i - from)),
            acc == digits_num(d.subrange(0, i - from)),
            acc <= limit,
            limit < u64::MAX / 16,
        decreases n - i,
    {
        let c = s.get_char(i);
        assert(d[i - from] == c);
        if c < '0' || c > '9' {
            proof {
                assert(!is_digit(d[i - from]));
            }
            return None;
        }
        proof {
            assert(d.subrange(0, i - from + 1).drop_last() =~= d.subrange(0, i - from));
        }
        let v: u64 = (c as u64) - 48;
        acc = acc * 10 + v;
        i = i + 1;
        if acc > limit {
            proof {
                if all_digits(d) {
                    lemma_digits_num_prefix(d, i - from);
                }
            }
            return None;
        }
    }
    assert(d.subrange(0, n - from) =~= d);
    Some(acc)
}

/// `str::parse::<u32>`: `Some` exactly when the text is an optional `+`
/// followed by decimal digits whose value fits in `u32`.
pub fn parse_u32_text(s: &str) -> (r: Option<u32>)
    ensures
        match u32_text_value(s@) {
            Some(v) => r matches Some(x) && x as int == v,
            None => r is None,
        },
{
    let n = s.unicode_len();
    let from: usize = if n > 0 && s.get_char(0) == '+' { 1 } else { 0 };
    if from >= n {
        return None;
    }
    proof {
        if from == 1 {
            assert(unsigned_body(s@) =~= s@.subrange(1, n as int));
        } else {
            assert(unsigned_body(s@) =~= s@.subrange(0, n as int));
        }
    }
    match digits_up_to(s, from, 4294967295) {
        Some(v) => Some(v as u32),
        None => None,
    }
}

/// `str::parse::<i32>`: `Some` exactly when the text is an optional sign
/// followed by decimal digits whose value fits in `i32`.
pub fn parse_i32_text(s: &str) -> (r: Option<i32>)
    ensures
        match i32_text_value(s@) {
            Some(v) => r matches Some(x) && x as int == v,
            None => r is None,
        },
{
    let n = s.unicode_len();
    let first = if n > 0 { s.get_char(0) } else { ' ' };
    let neg = n > 0 && first == '-';
    let from: usize = if n > 0 && (first == '+' || first == '-') { 1 } else { 0 };
    if from >= n {
        return None;
    }
    let ghost d = if from == 1 { s@.drop_first() } else { s@ };
    assert(d =~= s@.subrange(from as int, n as int));
    let limit: u64 = if neg { 2147483648 } else { 2147483647 };
    match digits_up_to(s, from, limit) {
        Some(v) => {
            if neg {
                Some((0 - (v as i64)) as i32)
            } else {
                Some(v as i32)
            }
        },
        None => None,
    }
}

/// `n` in decimal, padded with a leading zero to two digits (`{:02}`).
pub fn two_digit_text(n: u32) -> (r: String)
    requires
        n < 100,
    ensures
        r@ == zero_pad(nat_text(n as nat), 2),
{
    let t = i64_text(n as i64);
    if n < 10 {
        let z = String::from_str("0");
        proof {
            reveal_strlit("0");
            assert(nat_text(n as nat).len() == 1);
            assert(zero_pad(nat_text(n as nat), 2) =~= seq!['0'] + nat_text(n as nat));
        }
        z.concat(t.as_str())
    } else {
        proof {
            assert(nat_text(n as nat) == nat_text((n / 10) as nat).push(digit_char((n % 10) as int)));
            assert(nat_text((n / 10) as nat).len() == 1);
        }
        t
    }
}

/// `needle` occurs in `hay` at position `i`.
pub open spec fn occurs_at(hay: Seq<char>, needle: Seq<char>, i: int) -> bool {
    0 <= i && i + needle.len() <= hay.len() && hay.subrange(i, i + needle.len()) == needle
}

/// `needle` occurs somewhere in `hay` (what `str::contains` tests).
pub open spec fn has_substring(hay: Seq<char>, needle: Seq<char>) -> bool {
    exists|i: int| #[trigger] occurs_at(hay, needle, i)
}

fn occurs_at_exec(hay: &str, needle: &str, i: usize, n: usize, m: usize) -> (r: bool)
    requires
        n == hay@.len(),
        m == needle@.len(),
        i + m <= n,
    ensures
        r == occurs_at(hay@, needle@, i as int),
{
    let mut j: usize = 0;
    while j < m
        invariant
            n == hay@.len(),
            m == needle@.len(),
            i + m <= n,
            j <= m,
            forall|k: int| 0 <= k < j ==> hay@[i + k] == needle@[k],
        decreases m - j,
    {
        if hay.get_char(i + j) != needle.get_char(j) {
            proof {
                assert(hay@.subrange(i as int, i + m)[j as int] == hay@[i + j]);
            }
            return false;
        }
        j = j + 1;
    }
    proof {
        assert(hay@.subrange(i as int, i + m) =~= needle@);
    }
    true
}

/// Whether `needle` occurs in `hay`.
pub fn text_contains(hay: &str, needle: &str) -> (r: bool)
    ensures
        r == has_substring(hay@, needle@),
{
    let n = hay.unicode_len();
    let m = needle.unicode_len();
    if m > n {
        proof {
            assert forall|i: int| !occurs_at(hay@, needle@, i) by {}
        }
        return false;
    }
    if m == 0 {
        proof {
            assert(hay@.subrange(0, 0) =~= needle@);
            assert(occurs_at(hay@, needle@, 0));
        }
        return true;
    }
    let mut i: usize = 0;
    while i <= n - m
        invariant
            n == hay@.len(),
            m == needle@.len(),
            1 <= m <= n,
            i <= n - m + 1,
            forall|k: int| 0 <= k < i ==> !occurs_at(hay@, needle@, k),
        decreases n - m + 1 - i,
    {
        if occurs_at_exec(hay, needle, i, n, m) {
            return true;
        }
        i = i + 1;
    }
    proof {
        assert forall|k: int| !occurs_at(hay@, needle@, k) by {
            if 0 <= k < i {
            }
        }
    }
    false
}

} // verus!
