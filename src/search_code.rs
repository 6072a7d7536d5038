//! Search codes for product names: pinyin initials and full pinyin.
use vstd::prelude::*;
use pinyin::ToPinyin;
use crate::models::{opt_view, Product};
use crate::store::Store;
use crate::text::push_char;

verus! {

/// The plain (toneless) pinyin reading of a character, where it has one.
pub uninterp spec fn plain_pinyin(c: char) -> Option<Seq<char>>;

/// What `str::to_lowercase` makes of a text.
pub uninterp spec fn lower_of(s: Seq<char>) -> Seq<char>;

/// Relies on `pinyin::ToPinyin::to_pinyin` for `char` and `Pinyin::plain`:
/// the plain reading of `c`, or `None` for a character without one.
#[verifier::external_body]
fn pinyin_reading(c: char) -> (r: Option<String>)
    ensures
        opt_view(r) == plain_pinyin(c),
{
    c.to_pinyin().map(|p| p.plain().to_string())
}

/// Relies on `str::to_lowercase`: the result depends on the text alone, and
/// the empty text stays empty.
#[verifier::external_body]
pub(crate) fn lowercase(s: &str) -> (r: String)
    ensures
        r@ == lower_of(s@),
        s@.len() == 0 ==> r@.len() == 0,
{
    s.to_lowercase()
}

pub open spec fn is_ascii_alnum(c: char) -> bool {
    ('0' <= c && c <= '9') || ('a' <= c && c <= 'z') || ('A' <= c && c <= 'Z')
}

pub open spec fn alphabet() -> Seq<char> {
    "abcdefghijklmnopqrstuvwxyz"@
}

pub open spec fn ascii_lower(c: char) -> char {
    if 'A' <= c && c <= 'Z' {
        alphabet()[((c as u32) - ('A' as u32)) as int]
    } else {
        c
    }
}

/// What character `c` adds to the full code, given its lowered reading.
pub open spec fn piece(c: char, reading: Option<Seq<char>>) -> Option<Seq<char>> {
    match reading {
        Some(p) => Some(p),
        None => if is_ascii_alnum(c) {
            Some(seq![ascii_lower(c)])
        } else {
            None
        },
    }
}

/// Initials: the first character of each piece.
pub open spec fn initials_of(cs: Seq<char>, rs: Seq<Option<Seq<char>>>) -> Seq<char>
    decreases cs.len(),
{
    if cs.len() == 0 || rs.len() != cs.len() {
        seq![]
    } else {
        let rest = initials_of(cs.drop_last(), rs.drop_last());
        match piece(cs.last(), rs.last()) {
            Some(p) => if p.len() > 0 {
                rest.push(p[0])
            } else {
                rest
            },
            None => rest,
        }
    }
}

/// Full code: the pieces one after another.
pub open spec fn full_of(cs: Seq<char>, rs: Seq<Option<Seq<char>>>) -> Seq<char>
    decreases cs.len(),
{
    if cs.len() == 0 || rs.len() != cs.len() {
        seq![]
    } else {
        let rest = full_of(cs.drop_last(), rs.drop_last());
        match piece(cs.last(), rs.last()) {
            Some(p) => rest + p,
            None => rest,
        }
    }
}

/// The code for characters `cs` with lowered readings `rs`: initials, a
/// space and the full code; or `lowered`, the lowered name, where the full
/// code is empty.
pub open spec fn code_from(cs: Seq<char>, rs: Seq<Option<Seq<char>>>, lowered: Seq<char>) -> Seq<char> {
    let full = full_of(cs, rs);
    if full.len() == 0 {
        lowered
    } else {
        initials_of(cs, rs) + seq![' '] + full
    }
}

pub open spec fn lowered_reading(c: char) -> Option<Seq<char>> {
    match plain_pinyin(c) {
        Some(p) => Some(lower_of(p)),
        None => None,
    }
}

/// The search code of a product name.
pub open spec fn search_code(name: Seq<char>) -> Seq<char> {
    code_from(name, Seq::new(name.len(), |i: int| lowered_reading(name[i])), lower_of(name))
}

pub fn to_ascii_lower(c: char) -> (r: char)
    ensures
        r == ascii_lower(c),
{
    proof {
        reveal_strlit("abcdefghijklmnopqrstuvwxyz");
    }
    if 'A' <= c && c <= 'Z' {
        "abcdefghijklmnopqrstuvwxyz".get_char(((c as u32) - ('A' as u32)) as usize)
    } else {
        c
    }
}

/// The search code built from the name's characters, each one's lowered
/// reading, and the lowered name.
pub fn search_code_from(name: &str, readings: &Vec<Option<String>>, lowered: &str) -> (r: String)
    requires
        readings@.len() == name@.len(),
    ensures
        r@ == code_from(name@, readings@.map_values(|o: Option<String>| opt_view(o)), lowered@),
{
    let ghost rs = readings@.map_values(|o: Option<String>| opt_view(o));
    let n = name.unicode_len();
    let mut initials = String::new();
    let mut full = String::new();
    let mut i: usize = 0;
    assert(name@.subrange(0, 0) =~= Seq::<char>::empty());
    while i < n
        invariant
            n == name@.len(),
            readings@.len() == n,
            rs == readings@.map_values(|o: Option<String>| opt_view(o)),
            i <= n,
            initials@ == initials_of(name@.subrange(0, i as int), rs.subrange(0, i as int)),
            full@ == full_of(name@.subrange(0, i as int), rs.subrange(0, i as int)),
        decreases n - i,
    {
        let ghost cs1 = name@.subrange(0, i + 1);
        let ghost rs1 = rs.subrange(0, i + 1);
        assert(cs1.drop_last() =~= name@.subrange(0, i as int));
        assert(rs1.drop_last() =~= rs.subrange(0, i as int));
        let c = name.get_char(i);
        assert(cs1.last() == c);
        assert(rs1.last() == opt_view(readings@[i as int]));
        match &readings[i] {
            Some(p) => {
                if p.unicode_len() > 0 {
                    push_char(&mut initials, p.get_char(0));
                }
                full.append(p.as_str());
            },
            None => {
                let alnum = ('0' <= c && c <= '9') || ('a' <= c && c <= 'z') || ('A' <= c && c <= 'Z');
                if alnum {
                    let l = to_ascii_lower(c);
                    push_char(&mut initials, l);
                    push_char(&mut full, l);
                    assert(full@ =~= full_of(name@.subrange(0, i as int), rs.subrange(0, i as int)) + seq![l]);
                }
            },
        }
        i += 1;
    }
    assert(name@.subrange(0, n as int) =~= name@);
    assert(rs.subrange(0, n as int) =~= rs);
    if full.unicode_len() == 0 {
        crate::text::owned(lowered)
    } else {
        let mut r = initials;
        push_char(&mut r, ' ');
        r.append(full.as_str());
        r
    }
}

/// The search code of a product name: pinyin initials, a space, and the
/// full pinyin, with ASCII letters and digits kept in lower case and other
/// characters dropped; the lowered name where that leaves nothing.
pub fn generate_search_pinyin(name: &str) -> (r: String)
    ensures
        r@ == search_code(name@),
{
    let n = name.unicode_len();
    let mut readings: Vec<Option<String>> = Vec::new();
    let mut i: usize = 0;
    while i < n
        invariant
            n == name@.len(),
            i <= n,
            readings@.len() == i,
            forall|k: int| 0 <= k < i ==> opt_view(#[trigger] readings@[k]) == lowered_reading(name@[k]),
        decreases n - i,
    {
        let reading = match pinyin_reading(name.get_char(i)) {
            Some(p) => Some(lowercase(p.as_str())),
            None => None,
        };
        readings.push(reading);
        i += 1;
    }
    let lowered = lowercase(name);
    let r = search_code_from(name, &readings, lowered.as_str());
    assert(readings@.map_values(|o: Option<String>| opt_view(o))
        =~= Seq::new(name@.len(), |k: int| lowered_reading(name@[k])));
    r
}

/// The product's stored code differs from its name's code, ignoring case.
pub open spec fn code_stale(p: Product) -> bool {
    match p.pinyin {
        Some(x) => lower_of(x@) != search_code(p.name@),
        None => true,
    }
}

/// How many products have a stale code.
pub open spec fn stale_count(ps: Seq<Product>) -> nat
    decreases ps.len(),
{
    if ps.len() == 0 {
        0
    } else {
        stale_count(ps.drop_last()) + if code_stale(ps.last()) { 1nat } else { 0nat }
    }
}

/// `after` is `before` with its code brought up to date.
pub open spec fn code_refreshed(before: Product, after: Product, now: Seq<char>) -> bool {
    if code_stale(before) {
        &&& after.pinyin is Some
        &&& after.pinyin.unwrap()@ == search_code(before.name@)
        &&& after.updated_at@ == now
        &&& after == Product { pinyin: after.pinyin, updated_at: after.updated_at, ..before }
    } else {
        after == before
    }
}

impl Store {
    /// Brings every product's search code up to date; returns how many
    /// changed.
    pub fn batch_update_pinyin(&mut self, now: &str) -> (r: usize)
        requires
            old(self).wf(),
        ensures
            final(self).wf(),
            r == stale_count(old(self).products@),
            final(self).products@.len() == old(self).products@.len(),
            forall|i: int| 0 <= i < old(self).products@.len()
                ==> code_refreshed(#[trigger] old(self).products@[i], final(self).products@[i], now@),
            final(self).customers == old(self).customers,
            final(self).orders == old(self).orders,
            final(self).settings == old(self).settings,
    {
        let n = self.products.len();
        let mut count: usize = 0;
        let mut i: usize = 0;
        assert(old(self).products@.subrange(0, 0) =~= Seq::<Product>::empty());
        while i < n
            invariant
                n == self.products@.len(),
                n == old(self).products@.len(),
                i <= n,
                count == stale_count(old(self).products@.subrange(0, i as int)),
                count <= i,
                self.customers == old(self).customers,
                self.orders == old(self).orders,
                self.settings == old(self).settings,
                forall|k: int| 0 <= k < i ==> code_refreshed(#[trigger] old(self).products@[k], self.products@[k], now@),
                forall|k: int| i <= k < n ==> #[trigger] self.products@[k] == old(self).products@[k],
            decreases n - i,
        {
            assert(old(self).products@.subrange(0, i + 1).drop_last() =~= old(self).products@.subrange(0, i as int));
            let code = generate_search_pinyin(self.products[i].name.as_str());
            let stale = match &self.products[i].pinyin {
                Some(x) => {
                    let l = lowercase(x.as_str());
                    !crate::text::str_eq(l.as_str(), code.as_str())
                },
                None => true,
            };
            if stale {
                self.products[i].pinyin = Some(code);
                self.products[i].updated_at = crate::text::owned(now);
                count += 1;
            }
            i += 1;
        }
        assert(old(self).products@.subrange(0, n as int) =~= old(self).products@);
        proof {
            assert forall|a: int, b: int|
                0 <= a < n && 0 <= b < n && a != b implies self.products@[a].id@ != self.products@[b].id@ by {
                assert(code_refreshed(old(self).products@[a], self.products@[a], now@));
                assert(code_refreshed(old(self).products@[b], self.products@[b], now@));
            }
        }
        count
    }
}

} // verus!
