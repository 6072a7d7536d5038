//! Order numbers: date tokens, the sequence token, and the next sequence
//! value taken from the last number issued.
use vstd::prelude::*;
use crate::text::{has_prefix, push_char, owned};

verus! {

/// A calendar day, as the clock reports it.
#[derive(Clone, Copy, Debug, PartialEq, Eq, Structural)]
pub struct DateParts {
    pub year: i32,
    pub month: u32,
    pub day: u32,
}

pub open spec fn is_digit(c: char) -> bool {
    '0' <= c && c <= '9'
}

pub open spec fn digit_value(c: char) -> nat {
    ((c as u32) - ('0' as u32)) as nat
}

pub open spec fn digit_char(d: nat) -> char {
    if d == 0 { '0' } else if d == 1 { '1' } else if d == 2 { '2' } else if d == 3 { '3' }
    else if d == 4 { '4' } else if d == 5 { '5' } else if d == 6 { '6' } else if d == 7 { '7' }
    else if d == 8 { '8' } else { '9' }
}

/// Decimal digits of `n`, without leading zeros.
pub open spec fn decimal(n: nat) -> Seq<char>
    decreases n,
{
    if n < 10 {
        seq![digit_char(n)]
    } else {
        decimal(n / 10).push(digit_char(n % 10))
    }
}

/// `s` with zeros in front up to `w` characters.
pub open spec fn zero_pad(s: Seq<char>, w: nat) -> Seq<char> {
    if s.len() >= w {
        s
    } else {
        Seq::new((w - s.len()) as nat, |i: int| '0') + s
    }
}

/// `n` in decimal, zero-padded to `w` digits.
pub open spec fn padded(n: nat, w: nat) -> Seq<char> {
    zero_pad(decimal(n), w)
}

/// Value of a string of decimal digits.
pub open spec fn value_of(ds: Seq<char>) -> nat
    decreases ds.len(),
{
    if ds.len() == 0 {
        0
    } else {
        value_of(ds.drop_last()) * 10 + digit_value(ds.last())
    }
}

/// The year with at least four digits, signed outside 0..=9999.
pub open spec fn year_text(y: int) -> Seq<char> {
    if 0 <= y <= 9999 {
        padded(y as nat, 4)
    } else if y < 0 {
        seq!['-'] + padded((-y) as nat, 4)
    } else {
        seq!['+'] + padded(y as nat, 4)
    }
}

pub open spec fn tok_yyyy() -> Seq<char> { seq!['{', 'Y', 'Y', 'Y', 'Y', '}'] }
pub open spec fn tok_yy() -> Seq<char> { seq!['{', 'Y', 'Y', '}'] }
pub open spec fn tok_mm() -> Seq<char> { seq!['{', 'M', 'M', '}'] }
pub open spec fn tok_dd() -> Seq<char> { seq!['{', 'D', 'D', '}'] }
pub open spec fn tok_m() -> Seq<char> { seq!['{', 'M', '}'] }
pub open spec fn tok_d() -> Seq<char> { seq!['{', 'D', '}'] }

/// The text that replaces a date token at the front of `s`, and the token's
/// length; `None` where `s` starts with no date token.
pub open spec fn date_token(s: Seq<char>, d: DateParts) -> Option<(Seq<char>, nat)> {
    if has_prefix(s, tok_yyyy()) {
        Some((year_text(d.year as int), 6))
    } else if has_prefix(s, tok_yy()) {
        Some((padded((d.year as int % 100) as nat, 2), 4))
    } else if has_prefix(s, tok_mm()) {
        Some((padded(d.month as nat, 2), 4))
    } else if has_prefix(s, tok_dd()) {
        Some((padded(d.day as nat, 2), 4))
    } else if has_prefix(s, tok_m()) {
        Some((decimal(d.month as nat), 3))
    } else if has_prefix(s, tok_d()) {
        Some((decimal(d.day as nat), 3))
    } else {
        None
    }
}

/// `s` with each date token replaced by the day's value, left to right.
pub open spec fn expand_dates(s: Seq<char>, d: DateParts) -> Seq<char>
    decreases s.len(),
{
    if s.len() == 0 {
        seq![]
    } else {
        match date_token(s, d) {
            Some((v, k)) => if 0 < k <= s.len() {
                v + expand_dates(s.subrange(k as int, s.len() as int), d)
            } else {
                seq![]
            },
            None => seq![s[0]] + expand_dates(s.drop_first(), d),
        }
    }
}

/// The day as `YYYY-MM-DD`, the form of an order's business date.
pub open spec fn day_key(d: DateParts) -> Seq<char> {
    year_text(d.year as int) + seq!['-'] + padded(d.month as nat, 2) + seq!['-'] + padded(d.day as nat, 2)
}

pub fn digit_to_char(d: u64) -> (c: char)
    requires
        d < 10,
    ensures
        c == digit_char(d as nat),
{
    if d == 0 { '0' } else if d == 1 { '1' } else if d == 2 { '2' } else if d == 3 { '3' }
    else if d == 4 { '4' } else if d == 5 { '5' } else if d == 6 { '6' } else if d == 7 { '7' }
    else if d == 8 { '8' } else { '9' }
}

/// Appends the decimal digits of `n`.
pub fn push_decimal(out: &mut String, n: u64)
    ensures
        final(out)@ == old(out)@ + decimal(n as nat),
    decreases n,
{
    if n < 10 {
        push_char(out, digit_to_char(n));
        assert(decimal(n as nat) == seq![digit_char(n as nat)]);
        assert(old(out)@.push(digit_char(n as nat)) =~= old(out)@ + seq![digit_char(n as nat)]);
    } else {
        push_decimal(out, n / 10);
        push_char(out, digit_to_char(n % 10));
        assert(old(out)@ + decimal(n as nat / 10) + seq![digit_char((n % 10) as nat)]
            =~= old(out)@ + decimal(n as nat));
    }
}

proof fn lemma_decimal_len(n: nat)
    ensures
        decimal(n).len() >= 1,
    decreases n,
{
    if n >= 10 {
        lemma_decimal_len(n / 10);
    }
}

/// Appends `n` zero-padded to `w` digits.
pub fn push_padded(out: &mut String, n: u64, w: usize)
    ensures
        final(out)@ == old(out)@ + padded(n as nat, w as nat),
{
    let mut digits = String::new();
    push_decimal(&mut digits, n);
    assert(digits@ =~= decimal(n as nat));
    let len = digits.unicode_len();
    if len < w {
        let mut k: usize = 0;
        let ghost start = out@;
        while k < w - len
            invariant
                k <= w - len,
                len < w,
                out@ == start + Seq::new(k as nat, |i: int| '0'),
            decreases w - len - k,
        {
            push_char(out, '0');
            assert(start + Seq::new((k + 1) as nat, |i: int| '0')
                =~= (start + Seq::new(k as nat, |i: int| '0')).push('0'));
            k += 1;
        }
    }
    out.append(digits.as_str());
    assert(out@ =~= old(out)@ + padded(n as nat, w as nat));
}

/// Appends the year as `%Y` writes it.
pub fn push_year(out: &mut String, y: i32)
    ensures
        final(out)@ == old(out)@ + year_text(y as int),
{
    if 0 <= y && y <= 9999 {
        push_padded(out, y as u64, 4);
    } else if y < 0 {
        push_char(out, '-');
        let a: i64 = -(y as i64);
        push_padded(out, a as u64, 4);
        assert(out@ =~= old(out)@ + year_text(y as int));
    } else {
        push_char(out, '+');
        push_padded(out, y as u64, 4);
        assert(out@ =~= old(out)@ + year_text(y as int));
    }
}

/// The day as `YYYY-MM-DD`.
pub fn format_day_key(d: &DateParts) -> (r: String)
    ensures
        r@ == day_key(*d),
{
    let mut r = String::new();
    push_year(&mut r, d.year);
    push_char(&mut r, '-');
    push_padded(&mut r, d.month as u64, 2);
    push_char(&mut r, '-');
    push_padded(&mut r, d.day as u64, 2);
    assert(r@ =~= day_key(*d));
    r
}

/// Whether `lit` occurs in `s` at character position `i`.
fn occurs_at(s: &str, i: usize, lit: &str) -> (r: bool)
    requires
        i <= s@.len(),
    ensures
        r == has_prefix(s@.subrange(i as int, s@.len() as int), lit@),
{
    let n = s.unicode_len();
    let m = lit.unicode_len();
    if m > n - i {
        return false;
    }
    let ghost t = s@.subrange(i as int, n as int);
    let mut k: usize = 0;
    while k < m
        invariant
            n == s@.len(),
            m == lit@.len(),
            i + m <= n,
            k <= m,
            t == s@.subrange(i as int, n as int),
            forall|j: int| 0 <= j < k ==> t[j] == lit@[j],
        decreases m - k,
    {
        if s.get_char(i + k) != lit.get_char(k) {
            assert(t.subrange(0, m as int)[k as int] != lit@[k as int]);
            return false;
        }
        k += 1;
    }
    assert(t.subrange(0, m as int) =~= lit@);
    true
}

proof fn lemma_expand_step(s: Seq<char>, d: DateParts, i: int, v: Seq<char>, k: nat)
    requires
        0 <= i < s.len(),
        date_token(s.subrange(i, s.len() as int), d) == Some((v, k)),
        0 < k,
        i + k <= s.len(),
    ensures
        expand_dates(s.subrange(i, s.len() as int), d)
            == v + expand_dates(s.subrange(i + k, s.len() as int), d),
{
    assert(s.subrange(i, s.len() as int).subrange(k as int, s.len() - i) =~= s.subrange(i + k, s.len() as int));
}

proof fn lemma_expand_plain(s: Seq<char>, d: DateParts, i: int)
    requires
        0 <= i < s.len(),
        date_token(s.subrange(i, s.len() as int), d) is None,
    ensures
        expand_dates(s.subrange(i, s.len() as int), d)
            == seq![s[i]] + expand_dates(s.subrange(i + 1, s.len() as int), d),
{
    assert(s.subrange(i, s.len() as int).drop_first() =~= s.subrange(i + 1, s.len() as int));
}

/// Appends the value of the date token at position `i` of `s`, if one
/// starts there, and returns its length (0 where none does).
fn push_date_token(out: &mut String, s: &str, i: usize, d: &DateParts) -> (k: usize)
    requires
        i < s@.len(),
    ensures
        match date_token(s@.subrange(i as int, s@.len() as int), *d) {
            Some((v, len)) => k == len && final(out)@ == old(out)@ + v,
            None => k == 0 && final(out)@ == old(out)@,
        },
{
    proof {
        reveal_strlit("{YYYY}");
        reveal_strlit("{YY}");
        reveal_strlit("{MM}");
        reveal_strlit("{DD}");
        reveal_strlit("{M}");
        reveal_strlit("{D}");
        assert("{YYYY}"@ =~= tok_yyyy());
        assert("{YY}"@ =~= tok_yy());
        assert("{MM}"@ =~= tok_mm());
        assert("{DD}"@ =~= tok_dd());
        assert("{M}"@ =~= tok_m());
        assert("{D}"@ =~= tok_d());
    }
    if occurs_at(s, i, "{YYYY}") {
        push_year(out, d.year);
        6
    } else if occurs_at(s, i, "{YY}") {
        let yy: i32 = d.year % 100;
        let yy2: i32 = if yy < 0 { yy + 100 } else { yy };
        assert(yy2 as int == d.year as int % 100);
        push_padded(out, yy2 as u64, 2);
        4
    } else if occurs_at(s, i, "{MM}") {
        push_padded(out, d.month as u64, 2);
        4
    } else if occurs_at(s, i, "{DD}") {
        push_padded(out, d.day as u64, 2);
        4
    } else if occurs_at(s, i, "{M}") {
        push_decimal(out, d.month as u64);
        3
    } else if occurs_at(s, i, "{D}") {
        push_decimal(out, d.day as u64);
        3
    } else {
        0
    }
}

/// Replaces the date tokens `{YYYY}`, `{YY}`, `{MM}`, `{DD}`, `{M}` and `{D}`
/// of `pattern` by the parts of `d`.
pub fn expand_date_tokens(pattern: &str, d: &DateParts) -> (r: String)
    ensures
        r@ == expand_dates(pattern@, *d),
{
    let ghost s = pattern@;
    let n = pattern.unicode_len();
    let mut out = String::new();
    let mut i: usize = 0;
    assert(s.subrange(0, n as int) =~= s);
    while i < n
        invariant
            s == pattern@,
            n == s.len(),
            i <= n,
            out@ + expand_dates(s.subrange(i as int, n as int), *d) == expand_dates(s, *d),
        decreases n - i,
    {
        let ghost rest = s.subrange(i as int, n as int);
        let ghost before = out@;
        let k = push_date_token(&mut out, pattern, i, d);
        if k > 0 {
            proof {
                let (v, len) = date_token(rest, *d).unwrap();
                assert(has_prefix(rest, tok_d()) || has_prefix(rest, tok_m()) || has_prefix(rest, tok_yy())
                    || has_prefix(rest, tok_mm()) || has_prefix(rest, tok_dd()) || has_prefix(rest, tok_yyyy()));
                lemma_expand_step(s, *d, i as int, v, len);
            }
            i += k;
        } else {
            proof { lemma_expand_plain(s, *d, i as int); }
            push_char(&mut out, pattern.get_char(i));
            i += 1;
        }
        assert(out@ + expand_dates(s.subrange(i as int, n as int), *d) =~= before + expand_dates(rest, *d));
    }
    assert(s.subrange(n as int, n as int) =~= Seq::<char>::empty());
    assert(out@ + expand_dates(Seq::<char>::empty(), *d) =~= out@);
    out
}

/// Length of the run of digits at the front of `s`.
pub open spec fn digit_prefix_len(s: Seq<char>) -> nat
    decreases s.len(),
{
    if s.len() > 0 && is_digit(s[0]) {
        1 + digit_prefix_len(s.drop_first())
    } else {
        0
    }
}

pub open spec fn tok_seq() -> Seq<char> { seq!['{', 'S', 'E', 'Q', '}'] }
pub open spec fn tok_seq_open() -> Seq<char> { seq!['{', 'S', 'E', 'Q', ':'] }

/// A sequence token at the front of `s`: `{SEQ}`, or `{SEQ:` digits `}`.
/// Gives the token's length and its explicit width digits, if any.
pub open spec fn seq_token_at(s: Seq<char>) -> Option<(nat, Option<Seq<char>>)> {
    if has_prefix(s, tok_seq()) {
        Some((5, None))
    } else if has_prefix(s, tok_seq_open()) {
        let t = s.subrange(5, s.len() as int);
        let k = digit_prefix_len(t);
        if 0 < k < t.len() && t[k as int] == '}' {
            Some((6 + k, Some(t.subrange(0, k as int))))
        } else {
            None
        }
    } else {
        None
    }
}

/// Position of the leftmost sequence token of `s` at or after `i`.
pub open spec fn find_seq_token(s: Seq<char>, i: int) -> Option<int>
    decreases s.len() - i,
{
    if i < 0 || i >= s.len() {
        None
    } else if seq_token_at(s.subrange(i, s.len() as int)) is Some {
        Some(i)
    } else {
        find_seq_token(s, i + 1)
    }
}

/// Length of the run of digits at the end of `s`.
pub open spec fn trailing_digits(s: Seq<char>) -> nat
    decreases s.len(),
{
    if s.len() > 0 && is_digit(s.last()) {
        1 + trailing_digits(s.drop_last())
    } else {
        0
    }
}

/// Value of the last maximal digit run of `s`.
pub open spec fn last_run_value(s: Seq<char>) -> Option<nat>
    decreases s.len(),
{
    if s.len() == 0 {
        None
    } else if !is_digit(s.last()) {
        last_run_value(s.drop_last())
    } else {
        let k = trailing_digits(s);
        Some(value_of(s.subrange(s.len() - k, s.len() as int)))
    }
}

/// The sequence value that follows the last number issued: one more than
/// its last digit run, held at `u64::MAX`; or 1 where there is no such
/// number or run.
pub open spec fn next_sequence(prior: Option<Seq<char>>) -> nat {
    match prior {
        Some(p) => match last_run_value(p) {
            Some(v) => if v < u64::MAX { v + 1 } else { u64::MAX as nat },
            None => 1,
        },
        None => 1,
    }
}

/// `s` with each occurrence of `pat` replaced by `rep`, left to right.
pub open spec fn replace_all(s: Seq<char>, pat: Seq<char>, rep: Seq<char>) -> Seq<char>
    decreases s.len(),
{
    if s.len() == 0 || pat.len() == 0 {
        s
    } else if has_prefix(s, pat) {
        rep + replace_all(s.subrange(pat.len() as int, s.len() as int), pat, rep)
    } else {
        seq![s[0]] + replace_all(s.drop_first(), pat, rep)
    }
}

/// The pad width: the token's own digits where they form a `usize`, else
/// the configured count (nothing where that is negative).
pub open spec fn seq_width(explicit: Option<Seq<char>>, digits: i32) -> nat {
    match explicit {
        Some(ds) if value_of(ds) <= usize::MAX => value_of(ds),
        _ => if digits < 0 { 0 } else { digits as nat },
    }
}

/// The order number that `pattern` gives on day `d`, when `prior` is the
/// last number issued in the reference window.
pub open spec fn number_from(pattern: Seq<char>, d: DateParts, digits: i32, prior: Option<Seq<char>>) -> Seq<char> {
    let e = expand_dates(pattern, d);
    match find_seq_token(e, 0) {
        None => e,
        Some(i) => {
            let (len, explicit) = seq_token_at(e.subrange(i, e.len() as int)).unwrap();
            let tok = e.subrange(i, i + len);
            replace_all(e, tok, padded(next_sequence(prior), seq_width(explicit, digits)))
        },
    }
}

/// Whether `c` is an ASCII decimal digit.
pub fn char_is_digit(c: char) -> (r: bool)
    ensures
        r == is_digit(c),
{
    '0' <= c && c <= '9'
}

fn digit_prefix_len_exec(s: &str, i: usize) -> (k: usize)
    requires
        i <= s@.len(),
    ensures
        k == digit_prefix_len(s@.subrange(i as int, s@.len() as int)),
        i + k <= s@.len(),
        forall|t: int| i <= t < i + k ==> is_digit(#[trigger] s@[t]),
{
    let n = s.unicode_len();
    let mut j: usize = i;
    while j < n && char_is_digit(s.get_char(j))
        invariant
            n == s@.len(),
            i <= j <= n,
            forall|t: int| i <= t < j ==> is_digit(#[trigger] s@[t]),
            digit_prefix_len(s@.subrange(i as int, n as int))
                == (j - i) + digit_prefix_len(s@.subrange(j as int, n as int)),
        decreases n - j,
    {
        assert(s@.subrange(j as int, n as int).drop_first() =~= s@.subrange(j + 1, n as int));
        j += 1;
    }
    j - i
}

/// The sequence token at position `i` of `s`, if one starts there.
fn seq_token_exec(s: &str, i: usize) -> (r: Option<(usize, Option<String>)>)
    requires
        i <= s@.len(),
    ensures
        match seq_token_at(s@.subrange(i as int, s@.len() as int)) {
            None => r is None,
            Some((len, None)) => r == Some((len as usize, None::<String>)),
            Some((len, Some(ds))) => r is Some && r.unwrap().0 == len && r.unwrap().1 is Some && r.unwrap().1.unwrap()@ == ds,
        },
        r is Some ==> i + r.unwrap().0 <= s@.len() && r.unwrap().0 >= 5,
        r is Some && r.unwrap().1 is Some ==> forall|t: int| 0 <= t < r.unwrap().1.unwrap()@.len()
            ==> is_digit(#[trigger] r.unwrap().1.unwrap()@[t]),
{
    proof {
        reveal_strlit("{SEQ}");
        reveal_strlit("{SEQ:");
        assert("{SEQ}"@ =~= tok_seq());
        assert("{SEQ:"@ =~= tok_seq_open());
    }
    let n = s.unicode_len();
    let ghost rest = s@.subrange(i as int, n as int);
    if occurs_at(s, i, "{SEQ}") {
        return Some((5, None));
    }
    if !occurs_at(s, i, "{SEQ:") {
        return None;
    }
    let k = digit_prefix_len_exec(s, i + 5);
    assert(rest.subrange(5, rest.len() as int) =~= s@.subrange(i + 5, n as int));
    if k > 0 && i + 5 + k < n && s.get_char(i + 5 + k) == '}' {
        let ds = owned(s.substring_char(i + 5, i + 5 + k));
        assert(ds@ =~= rest.subrange(5, rest.len() as int).subrange(0, k as int));
        Some((6 + k, Some(ds)))
    } else {
        None
    }
}

/// Position of the leftmost sequence token of `s`, with its length and
/// explicit width digits.
pub fn locate_seq_token(s: &str) -> (r: Option<(usize, usize, Option<String>)>)
    ensures
        match find_seq_token(s@, 0) {
            None => r is None,
            Some(i) => r is Some && r.unwrap().0 == i && ({
                let (len, ds) = seq_token_at(s@.subrange(i, s@.len() as int)).unwrap();
                &&& r.unwrap().1 == len
                &&& match ds {
                    None => r.unwrap().2 is None,
                    Some(d) => r.unwrap().2 is Some && r.unwrap().2.unwrap()@ == d,
                }
            }),
        },
        r is Some ==> r.unwrap().0 + r.unwrap().1 <= s@.len() && r.unwrap().1 >= 5,
        r is Some && r.unwrap().2 is Some ==> forall|t: int| 0 <= t < r.unwrap().2.unwrap()@.len()
            ==> is_digit(#[trigger] r.unwrap().2.unwrap()@[t]),
{
    let n = s.unicode_len();
    let mut i: usize = 0;
    while i < n
        invariant
            n == s@.len(),
            i <= n,
            find_seq_token(s@, 0) == find_seq_token(s@, i as int),
        decreases n - i,
    {
        match seq_token_exec(s, i) {
            Some((len, ds)) => {
                return Some((i, len, ds));
            },
            None => {},
        }
        i += 1;
    }
    None
}

proof fn lemma_value_step(ds: Seq<char>, j: int)
    requires
        0 <= j < ds.len(),
    ensures
        value_of(ds.subrange(0, j + 1)) == value_of(ds.subrange(0, j)) * 10 + digit_value(ds[j]),
{
    assert(ds.subrange(0, j + 1).drop_last() =~= ds.subrange(0, j));
}

proof fn lemma_value_mono(ds: Seq<char>, j: int, m: int)
    requires
        0 <= j <= m <= ds.len(),
        forall|t: int| 0 <= t < ds.len() ==> is_digit(#[trigger] ds[t]),
    ensures
        value_of(ds.subrange(0, j)) <= value_of(ds.subrange(0, m)),
    decreases m - j,
{
    if j < m {
        lemma_value_mono(ds, j, m - 1);
        lemma_value_step(ds, m - 1);
    }
}

/// Value of the digits `s[from..to]`, or `None` where it exceeds `limit`.
fn parse_digits(s: &str, from: usize, to: usize, limit: u64) -> (r: Option<u64>)
    requires
        from <= to <= s@.len(),
        limit >= 9,
        forall|t: int| from <= t < to ==> is_digit(#[trigger] s@[t]),
    ensures
        value_of(s@.subrange(from as int, to as int)) <= limit ==> r is Some && r.unwrap() == value_of(s@.subrange(from as int, to as int)),
        value_of(s@.subrange(from as int, to as int)) > limit ==> r is None,
{
    let ghost ds = s@.subrange(from as int, to as int);
    let mut v: u64 = 0;
    let mut j: usize = from;
    assert(ds.subrange(0, 0) =~= Seq::<char>::empty());
    while j < to
        invariant
            from <= j <= to <= s@.len(),
            ds == s@.subrange(from as int, to as int),
            forall|t: int| from <= t < to ==> is_digit(#[trigger] s@[t]),
            v == value_of(ds.subrange(0, j - from)),
            v <= limit,
            limit >= 9,
        decreases to - j,
    {
        let c = s.get_char(j);
        let dv: u64 = ((c as u32) - ('0' as u32)) as u64;
        proof {
            lemma_value_step(ds, (j - from) as int);
            assert(ds[(j - from) as int] == c);
        }
        if v > (limit - dv) / 10 {
            proof {
                assert(v * 10 + dv > limit) by (nonlinear_arith)
                    requires v > (limit - dv) / 10, dv <= 9, limit >= 9;
                assert forall|t: int| 0 <= t < ds.len() implies is_digit(#[trigger] ds[t]) by {
                    assert(ds[t] == s@[from + t]);
                }
                lemma_value_mono(ds, (j - from + 1) as int, ds.len() as int);
                assert(ds.subrange(0, ds.len() as int) =~= ds);
            }
            return None;
        }
        proof {
            assert(v * 10 + dv <= limit) by (nonlinear_arith)
                requires v <= (limit - dv) / 10, dv <= limit;
        }
        v = v * 10 + dv;
        j += 1;
    }
    assert(ds.subrange(0, (to - from) as int) =~= ds);
    Some(v)
}

proof fn lemma_last_run_skip(s: Seq<char>, end: int)
    requires
        0 < end <= s.len(),
        !is_digit(s[end - 1]),
    ensures
        last_run_value(s.subrange(0, end)) == last_run_value(s.subrange(0, end - 1)),
{
    assert(s.subrange(0, end).drop_last() =~= s.subrange(0, end - 1));
}

proof fn lemma_trailing_digits(s: Seq<char>, start: int, end: int)
    requires
        0 <= start <= end <= s.len(),
        forall|t: int| start <= t < end ==> is_digit(#[trigger] s[t]),
        start == 0 || !is_digit(s[start - 1]),
    ensures
        trailing_digits(s.subrange(0, end)) == end - start,
    decreases end - start,
{
    if end > start {
        assert(s.subrange(0, end).drop_last() =~= s.subrange(0, end - 1));
        lemma_trailing_digits(s, start, end - 1);
    } else if end > 0 {
        assert(s.subrange(0, end).last() == s[end - 1]);
    }
}

/// Value of the last digit run of `s`, or `None` where `s` has no digit.
/// A value of `u64::MAX` or more is given as `u64::MAX`.
pub fn last_digit_run(s: &str) -> (r: Option<u64>)
    ensures
        match last_run_value(s@) {
            Some(v) => r is Some && r.unwrap() == if v < u64::MAX { v } else { u64::MAX as nat },
            None => r is None,
        },
{
    let n = s.unicode_len();
    let mut end: usize = n;
    assert(s@.subrange(0, n as int) =~= s@);
    while end > 0 && !char_is_digit(s.get_char(end - 1))
        invariant
            n == s@.len(),
            end <= n,
            last_run_value(s@) == last_run_value(s@.subrange(0, end as int)),
        decreases end,
    {
        proof { lemma_last_run_skip(s@, end as int); }
        end -= 1;
    }
    if end == 0 {
        assert(s@.subrange(0, 0) =~= Seq::<char>::empty());
        return None;
    }
    let mut start: usize = end - 1;
    while start > 0 && char_is_digit(s.get_char(start - 1))
        invariant
            n == s@.len(),
            start < end <= n,
            forall|t: int| start <= t < end ==> is_digit(#[trigger] s@[t]),
        decreases start,
    {
        start -= 1;
    }
    let ghost pre = s@.subrange(0, end as int);
    proof {
        lemma_trailing_digits(s@, start as int, end as int);
        assert(pre.subrange(pre.len() - (end - start), pre.len() as int) =~= s@.subrange(start as int, end as int));
        assert(pre.last() == s@[end - 1]);
    }
    match parse_digits(s, start, end, u64::MAX - 1) {
        Some(v) => Some(v),
        None => Some(u64::MAX),
    }
}

/// The sequence value after the number `prior`, 1 where there is none.
pub fn next_sequence_value(prior: Option<&str>) -> (r: u64)
    ensures
        r == next_sequence(match prior { Some(p) => Some(p@), None => None }),
{
    match prior {
        Some(p) => match last_digit_run(p) {
            Some(v) => if v < u64::MAX { v + 1 } else { u64::MAX },
            None => 1,
        },
        None => 1,
    }
}

proof fn lemma_replace_hit(s: Seq<char>, i: int, pat: Seq<char>, rep: Seq<char>)
    requires
        0 <= i < s.len(),
        pat.len() > 0,
        has_prefix(s.subrange(i, s.len() as int), pat),
    ensures
        replace_all(s.subrange(i, s.len() as int), pat, rep)
            == rep + replace_all(s.subrange(i + pat.len(), s.len() as int), pat, rep),
{
    assert(s.subrange(i, s.len() as int).subrange(pat.len() as int, s.len() - i) =~= s.subrange(i + pat.len(), s.len() as int));
}

proof fn lemma_replace_miss(s: Seq<char>, i: int, pat: Seq<char>, rep: Seq<char>)
    requires
        0 <= i < s.len(),
        pat.len() > 0,
        !has_prefix(s.subrange(i, s.len() as int), pat),
    ensures
        replace_all(s.subrange(i, s.len() as int), pat, rep)
            == seq![s[i]] + replace_all(s.subrange(i + 1, s.len() as int), pat, rep),
{
    assert(s.subrange(i, s.len() as int).drop_first() =~= s.subrange(i + 1, s.len() as int));
}

/// `s` with each occurrence of `pat` replaced by `rep`, as `str::replace`.
pub fn replace_each(s: &str, pat: &str, rep: &str) -> (r: String)
    requires
        pat@.len() > 0,
    ensures
        r@ == replace_all(s@, pat@, rep@),
{
    let n = s.unicode_len();
    let m = pat.unicode_len();
    let mut out = String::new();
    let mut i: usize = 0;
    assert(s@.subrange(0, n as int) =~= s@);
    while i < n
        invariant
            n == s@.len(),
            m == pat@.len(),
            m > 0,
            i <= n,
            out@ + replace_all(s@.subrange(i as int, n as int), pat@, rep@) == replace_all(s@, pat@, rep@),
        decreases n - i,
    {
        let ghost before = out@;
        let ghost rest = s@.subrange(i as int, n as int);
        if occurs_at(s, i, pat) {
            proof { lemma_replace_hit(s@, i as int, pat@, rep@); }
            out.append(rep);
            i += m;
        } else {
            proof { lemma_replace_miss(s@, i as int, pat@, rep@); }
            push_char(&mut out, s.get_char(i));
            i += 1;
        }
        assert(out@ + replace_all(s@.subrange(i as int, n as int), pat@, rep@) =~= before + replace_all(rest, pat@, rep@));
    }
    assert(s@.subrange(n as int, n as int) =~= Seq::<char>::empty());
    assert(out@ + Seq::<char>::empty() =~= out@);
    out
}

/// The order number that `pattern` gives on day `d` when `prior` is the last
/// number issued in the reference window; `digits` is the configured width.
pub fn number_with_prior(pattern: &str, d: &DateParts, digits: i32, prior: Option<&str>) -> (r: String)
    ensures
        r@ == number_from(pattern@, *d, digits, match prior { Some(p) => Some(p@), None => None }),
{
    let e = expand_date_tokens(pattern, d);
    match locate_seq_token(e.as_str()) {
        None => e,
        Some((i, len, explicit)) => {
            let _n = e.unicode_len();
            let width: usize = match &explicit {
                Some(ds) => {
                    let k = ds.unicode_len();
                    let parsed = parse_digits(ds.as_str(), 0, k, usize::MAX as u64);
                    assert(ds@.subrange(0, k as int) =~= ds@);
                    match parsed {
                        Some(w) => w as usize,
                        None => if digits < 0 { 0 } else { digits as usize },
                    }
                },
                None => if digits < 0 { 0 } else { digits as usize },
            };
            let mut seq_text = String::new();
            push_padded(&mut seq_text, next_sequence_value(prior), width);
            let tok = owned(e.as_str().substring_char(i, i + len));
            replace_each(e.as_str(), tok.as_str(), seq_text.as_str())
        },
    }
}

} // verus!
