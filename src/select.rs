//! From the cookies that the browser reports to the caller's result:
//! keep those that apply to the requested domain, map them to `Cookie`,
//! and order them by name.
use crate::cookie::{Cookie, CookieError};
use crate::domain::{domain_match, domain_matches};
use crate::expiry::{expiry_from_bits, expiry_of_bits};
use vstd::multiset::lemma_multiset_empty_len;
use vstd::prelude::*;
use vstd::seq_lib::to_multiset_build;
use vstd::seq_lib::to_multiset_insert;

verus! {

/// A cookie record as the protocol reports it. The expiry is the bit
/// pattern of the protocol's floating-point seconds since the epoch.
pub struct RawCookie {
    pub name: String,
    pub value: String,
    pub domain: String,
    pub path: String,
    pub expires_bits: u64,
    pub secure: bool,
    pub http_only: bool,
}

/// The `Cookie` that a protocol record becomes.
pub open spec fn cookie_of(c: RawCookie) -> Cookie {
    Cookie {
        name: c.name,
        value: c.value,
        domain: c.domain,
        path: c.path,
        expires: expiry_of_bits(c.expires_bits),
        is_secure: c.secure,
        is_http_only: c.http_only,
    }
}

/// The records of `raw` whose domain applies to `target`, as cookies, in
/// their order.
pub open spec fn kept(raw: Seq<RawCookie>, target: Seq<char>) -> Seq<Cookie>
    decreases raw.len(),
{
    if raw.len() == 0 {
        Seq::empty()
    } else if domain_match(raw.last().domain@, target) {
        kept(raw.drop_last(), target).push(cookie_of(raw.last()))
    } else {
        kept(raw.drop_last(), target)
    }
}

/// `a` comes no later than `b` in ordinal (code point by code point) order.
pub open spec fn lex_le(a: Seq<char>, b: Seq<char>) -> bool
    decreases a.len(),
{
    if a.len() == 0 {
        true
    } else if b.len() == 0 {
        false
    } else if (a[0] as u32) != (b[0] as u32) {
        (a[0] as u32) < (b[0] as u32)
    } else {
        lex_le(a.drop_first(), b.drop_first())
    }
}

/// The cookies are in ascending order of name.
pub open spec fn sorted_by_name(s: Seq<Cookie>) -> bool {
    forall|i: int, j: int| 0 <= i < j < s.len() ==> lex_le(s[i].name@, s[j].name@)
}

/// The cookies named `n`.
pub open spec fn named(n: Seq<char>) -> spec_fn(Cookie) -> bool {
    |c: Cookie| c.name@ == n
}

/// For every name, the cookies of that name stand in `r` in the order in
/// which they stand in `s`.
pub open spec fn keeps_order_by_name(r: Seq<Cookie>, s: Seq<Cookie>) -> bool {
    forall|n: Seq<char>| #[trigger] r.filter(named(n)) == s.filter(named(n))
}

/// `r` is a result that the extraction may give for these records: the
/// cookies that apply, in order of name, cookies of one name in the order
/// in which the browser reported them, where there are any; otherwise
/// `NoCookies`.
pub open spec fn outcome_ok(
    raw: Seq<RawCookie>,
    target: Seq<char>,
    r: Result<Vec<Cookie>, CookieError>,
) -> bool {
    let k = kept(raw, target);
    match r {
        Ok(v) => {
            &&& k.len() > 0
            &&& v@.to_multiset() == k.to_multiset()
            &&& sorted_by_name(v@)
            &&& keeps_order_by_name(v@, k)
        },
        Err(e) => k.len() == 0 && e == CookieError::NoCookies,
    }
}

proof fn lemma_lex_total(a: Seq<char>, b: Seq<char>)
    ensures
        lex_le(a, b) || lex_le(b, a),
    decreases a.len(),
{
    if a.len() > 0 && b.len() > 0 && (a[0] as u32) == (b[0] as u32) {
        lemma_lex_total(a.drop_first(), b.drop_first());
    }
}

proof fn lemma_lex_refl(a: Seq<char>)
    ensures
        lex_le(a, a),
    decreases a.len(),
{
    if a.len() > 0 {
        lemma_lex_refl(a.drop_first());
    }
}

proof fn lemma_lex_trans(a: Seq<char>, b: Seq<char>, c: Seq<char>)
    requires
        lex_le(a, b),
        lex_le(b, c),
    ensures
        lex_le(a, c),
    decreases a.len(),
{
    if a.len() > 0 && b.len() > 0 && c.len() > 0 && (a[0] as u32) == (b[0] as u32) && (b[0] as u32)
        == (c[0] as u32) {
        lemma_lex_trans(a.drop_first(), b.drop_first(), c.drop_first());
    }
}

/// The `Cookie` that a protocol record becomes.
pub fn cookie_from_raw(c: RawCookie) -> (r: Cookie)
    ensures
        r == cookie_of(c),
{
    let expires = expiry_from_bits(c.expires_bits);
    Cookie {
        name: c.name,
        value: c.value,
        domain: c.domain,
        path: c.path,
        expires,
        is_secure: c.secure,
        is_http_only: c.http_only,
    }
}

/// The records whose domain applies to `target`, as cookies, in their order.
pub fn select_cookies(raw: Vec<RawCookie>, target: &str) -> (r: Vec<Cookie>)
    ensures
        r@ == kept(raw@, target@),
{
    let ghost whole = raw@;
    let mut rest = raw;
    let mut out: Vec<Cookie> = Vec::new();
    while rest.len() > 0
        invariant
            kept(whole, target@) == kept(rest@, target@) + out@,
        decreases rest@.len(),
    {
        let ghost before = rest@;
        let c = rest.pop().unwrap();
        assert(before.drop_last() == rest@);
        if domain_matches(&c.domain, target) {
            let k = cookie_from_raw(c);
            out.insert(0, k);
            assert(kept(before, target@) + out@.drop_first() =~= kept(rest@, target@) + out@);
        }
    }
    assert(kept(rest@, target@) + out@ =~= out@);
    out
}

/// Whether the name `a` comes no later than the name `b`, code point by
/// code point.
fn name_le(a: &String, b: &String) -> (r: bool)
    ensures
        r == lex_le(a@, b@),
{
    let x = crate::domain::chars_of(a.as_str());
    let y = crate::domain::chars_of(b.as_str());
    let mut i: usize = 0;
    assert(x@.skip(0) =~= x@);
    assert(y@.skip(0) =~= y@);
    while i < x.len() && i < y.len() && (x[i] as u32) == (y[i] as u32)
        invariant
            i <= x@.len(),
            i <= y@.len(),
            lex_le(x@, y@) == lex_le(x@.skip(i as int), y@.skip(i as int)),
        decreases x@.len() - i,
    {
        assert(x@.skip(i as int).drop_first() =~= x@.skip(i + 1));
        assert(y@.skip(i as int).drop_first() =~= y@.skip(i + 1));
        i += 1;
    }
    if i == x.len() {
        true
    } else if i == y.len() {
        false
    } else {
        (x[i] as u32) < (y[i] as u32)
    }
}

/// `c` put into the sorted `out` before every cookie whose name is not
/// smaller than its own.
fn insert_by_name(out: &mut Vec<Cookie>, c: Cookie)
    requires
        sorted_by_name(old(out)@),
    ensures
        final(out)@.to_multiset() == old(out)@.to_multiset().insert(c),
        sorted_by_name(final(out)@),
        forall|n: Seq<char>|
            #[trigger] final(out)@.filter(named(n)) == if c.name@ == n {
                seq![c] + old(out)@.filter(named(n))
            } else {
                old(out)@.filter(named(n))
            },
{
    let mut pos: usize = 0;
    while pos < out.len() && !name_le(&c.name, &out[pos].name)
        invariant
            pos <= out@.len(),
            forall|k: int| 0 <= k < pos ==> !lex_le(c.name@, #[trigger] out@[k].name@),
        decreases out@.len() - pos,
    {
        pos += 1;
    }
    let ghost old_out = out@;
    proof {
        to_multiset_insert(old_out, pos as int, c);
    }
    out.insert(pos, c);
    proof {
        old_out.insert_ensures(pos as int, c);
        assert forall|i: int, j: int| 0 <= i < j < out@.len() implies lex_le(
            out@[i].name@,
            out@[j].name@,
        ) by {
            if j == pos {
                lemma_lex_total(c.name@, old_out[i].name@);
            } else if i == pos {
                lemma_lex_refl(old_out[pos as int].name@);
                lemma_lex_trans(c.name@, old_out[pos as int].name@, old_out[j - 1].name@);
            } else if j < pos {
            } else if i < pos {
                assert(out@[j] == old_out[j - 1]);
            } else {
                assert(out@[i] == old_out[i - 1]);
                assert(out@[j] == old_out[j - 1]);
            }
        }
        let front = old_out.subrange(0, pos as int);
        let back = old_out.subrange(pos as int, old_out.len() as int);
        assert(old_out =~= front + back);
        assert(out@ =~= front.push(c) + back);
        assert forall|n: Seq<char>| #[trigger] out@.filter(named(n)) == if c.name@ == n {
            seq![c] + old_out.filter(named(n))
        } else {
            old_out.filter(named(n))
        } by {
            Seq::filter_distributes_over_add(front.push(c), back, named(n));
            Seq::filter_distributes_over_add(front, back, named(n));
            front.lemma_filter_push(c, named(n));
            if c.name@ == n {
                assert forall|k: int| 0 <= k < front.len() implies !named(n)(front[k]) by {
                    lemma_lex_refl(c.name@);
                }
                front.lemma_all_neg_filter_empty(named(n));
                assert(front.filter(named(n)).push(c) + back.filter(named(n)) =~= seq![c]
                    + old_out.filter(named(n)));
            }
        }
    }
}

/// The same cookies, in ascending order of name; cookies of one name keep
/// their order.
pub fn sort_by_name(v: Vec<Cookie>) -> (r: Vec<Cookie>)
    ensures
        r@.to_multiset() == v@.to_multiset(),
        sorted_by_name(r@),
        keeps_order_by_name(r@, v@),
{
    let ghost whole = v@;
    let mut rest = v;
    let mut out: Vec<Cookie> = Vec::new();
    proof {
        out@.to_multiset_ensures();
        lemma_multiset_empty_len(out@.to_multiset());
        assert(rest@.to_multiset().add(out@.to_multiset()) =~= whole.to_multiset());
        assert forall|n: Seq<char>| #[trigger] whole.filter(named(n)) == rest@.filter(named(n))
            + out@.filter(named(n)) by {
            out@.lemma_all_neg_filter_empty(named(n));
            assert(rest@.filter(named(n)) + out@.filter(named(n)) =~= rest@.filter(named(n)));
        }
    }
    while rest.len() > 0
        invariant
            rest@.to_multiset().add(out@.to_multiset()) == whole.to_multiset(),
            sorted_by_name(out@),
            forall|n: Seq<char>| #[trigger] whole.filter(named(n)) == rest@.filter(named(n))
                + out@.filter(named(n)),
        decreases rest@.len(),
    {
        let ghost before = rest@;
        let ghost old_out = out@;
        let c = rest.pop().unwrap();
        proof {
            assert(before =~= rest@.push(c));
            to_multiset_build(rest@, c);
        }
        insert_by_name(&mut out, c);
        assert(rest@.to_multiset().add(out@.to_multiset()) =~= whole.to_multiset());
        assert forall|n: Seq<char>| #[trigger] whole.filter(named(n)) == rest@.filter(named(n))
            + out@.filter(named(n)) by {
            rest@.lemma_filter_push(c, named(n));
            if c.name@ == n {
                assert(rest@.filter(named(n)).push(c) + old_out.filter(named(n)) =~= rest@.filter(
                    named(n),
                ) + (seq![c] + old_out.filter(named(n))));
            }
        }
    }
    proof {
        rest@.to_multiset_ensures();
        lemma_multiset_empty_len(rest@.to_multiset());
        assert(rest@.to_multiset().add(out@.to_multiset()) =~= out@.to_multiset());
        assert forall|n: Seq<char>| #[trigger] out@.filter(named(n)) == whole.filter(named(n)) by {
            rest@.lemma_all_neg_filter_empty(named(n));
            assert(rest@.filter(named(n)) + out@.filter(named(n)) =~= out@.filter(named(n)));
        }
    }
    out
}

/// The result for these protocol records: the cookies that apply to
/// `target`, in ascending order of name, or `NoCookies` where none does.
pub fn collect_result(raw: Vec<RawCookie>, target: &str) -> (r: Result<Vec<Cookie>, CookieError>)
    ensures
        outcome_ok(raw@, target@, r),
{
    let found = select_cookies(raw, target);
    if found.len() == 0 {
        Err(CookieError::NoCookies)
    } else {
        Ok(sort_by_name(found))
    }
}

/// A fetch that leaves no cookie for the requested domain never yields an
/// empty list: the result is `NoCookies`.
pub proof fn lemma_nothing_kept_is_no_cookies(
    raw: Seq<RawCookie>,
    target: Seq<char>,
    r: Result<Vec<Cookie>, CookieError>,
)
    requires
        outcome_ok(raw, target, r),
    ensures
        kept(raw, target).len() == 0 <==> r == Err::<Vec<Cookie>, CookieError>(
            CookieError::NoCookies,
        ),
        r matches Ok(v) ==> v@.len() > 0,
{
    if let Ok(v) = r {
        v@.to_multiset_ensures();
        kept(raw, target).to_multiset_ensures();
    }
}

/// Every cookie in a result applies to the requested domain.
pub proof fn lemma_kept_cookies_match(raw: Seq<RawCookie>, target: Seq<char>, i: int)
    requires
        0 <= i < kept(raw, target).len(),
    ensures
        domain_match(kept(raw, target)[i].domain@, target),
    decreases raw.len(),
{
    if raw.len() > 0 {
        let rest = kept(raw.drop_last(), target);
        if i < rest.len() {
            lemma_kept_cookies_match(raw.drop_last(), target, i);
        }
    }
}

} // verus!
