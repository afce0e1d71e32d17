//! Turning a URL or domain string into a canonical domain, and deciding
//! whether a cookie's domain attribute applies to a requested domain.
use vstd::prelude::*;

verus! {

/// Unicode `White_Space`, the set that `str::trim` removes.
pub open spec fn is_white_space(c: char) -> bool {
    let u = c as u32;
    (0x9 <= u <= 0xd) || u == 0x20 || u == 0x85 || u == 0xa0 || u == 0x1680 || (0x2000 <= u
        <= 0x200a) || u == 0x2028 || u == 0x2029 || u == 0x202f || u == 0x205f || u == 0x3000
}

pub open spec fn trim_start_ws(s: Seq<char>) -> Seq<char>
    decreases s.len(),
{
    if s.len() > 0 && is_white_space(s[0]) {
        trim_start_ws(s.drop_first())
    } else {
        s
    }
}

pub open spec fn trim_end_ws(s: Seq<char>) -> Seq<char>
    decreases s.len(),
{
    if s.len() > 0 && is_white_space(s.last()) {
        trim_end_ws(s.drop_last())
    } else {
        s
    }
}

/// `s` without white space at either end.
pub open spec fn trimmed(s: Seq<char>) -> Seq<char> {
    trim_end_ws(trim_start_ws(s))
}

/// `s` without `p` in front of it, where it starts with `p`.
pub open spec fn strip_prefix_seq(s: Seq<char>, p: Seq<char>) -> Seq<char> {
    if p.is_prefix_of(s) {
        s.skip(p.len() as int)
    } else {
        s
    }
}

/// The part of `s` before its first `/` (all of `s` where it has none).
pub open spec fn before_slash(s: Seq<char>) -> Seq<char>
    decreases s.len(),
{
    if s.len() == 0 || s[0] == '/' {
        Seq::empty()
    } else {
        seq![s[0]] + before_slash(s.drop_first())
    }
}

pub open spec fn http_scheme() -> Seq<char> {
    seq!['h', 't', 't', 'p', ':', '/', '/']
}

pub open spec fn https_scheme() -> Seq<char> {
    seq!['h', 't', 't', 'p', 's', ':', '/', '/']
}

pub open spec fn www_label() -> Seq<char> {
    seq!['w', 'w', 'w', '.']
}

/// The canonical domain of a raw URL or domain: trimmed, without a leading
/// `http://`, then without a leading `https://`, then without a leading
/// `www.`, cut at the first `/`.
pub open spec fn normalized(raw: Seq<char>) -> Seq<char> {
    before_slash(
        strip_prefix_seq(
            strip_prefix_seq(strip_prefix_seq(trimmed(raw), http_scheme()), https_scheme()),
            www_label(),
        ),
    )
}

/// `s` without its leading dots.
pub open spec fn strip_dots(s: Seq<char>) -> Seq<char>
    decreases s.len(),
{
    if s.len() > 0 && s[0] == '.' {
        strip_dots(s.drop_first())
    } else {
        s
    }
}

/// `needle` occurs somewhere in `hay`.
pub open spec fn is_infix(needle: Seq<char>, hay: Seq<char>) -> bool {
    exists|i: int|
        0 <= i && i + needle.len() <= hay.len() && #[trigger] hay.subrange(i, i + needle.len())
            == needle
}

/// Whether a cookie set for `cookie` applies to `target`. With leading dots
/// stripped from both: they are equal, or one is a subdomain of the other,
/// or one contains the other.
pub open spec fn domain_match(cookie: Seq<char>, target: Seq<char>) -> bool {
    let c = strip_dots(cookie);
    let t = strip_dots(target);
    ||| c == t
    ||| (seq!['.'] + c).is_suffix_of(t)
    ||| (seq!['.'] + t).is_suffix_of(c)
    ||| is_infix(c, t)
    ||| is_infix(t, c)
}

/// Relies on `str::trim`: removes leading and trailing Unicode `White_Space`.
#[verifier::external_body]
fn trim_str(s: &str) -> (r: &str)
    ensures
        r@ == trimmed(s@),
{
    s.trim()
}

/// Relies on `str::chars`: the characters of `s`, in order.
#[verifier::external_body]
pub(crate) fn chars_of(s: &str) -> (r: Vec<char>)
    ensures
        r@ == s@,
{
    s.chars().collect()
}

/// Relies on `String: FromIterator<char>`: a string of these characters.
#[verifier::external_body]
pub(crate) fn string_of(cs: &Vec<char>) -> (r: String)
    ensures
        r@ == cs@,
{
    cs.iter().collect()
}

/// The characters of `s` from `lo` up to `hi`.
fn copy_range(s: &Vec<char>, lo: usize, hi: usize) -> (r: Vec<char>)
    requires
        lo <= hi <= s@.len(),
    ensures
        r@ == s@.subrange(lo as int, hi as int),
{
    let mut out: Vec<char> = Vec::new();
    let mut i: usize = lo;
    while i < hi
        invariant
            lo <= i <= hi <= s@.len(),
            out@ == s@.subrange(lo as int, i as int),
        decreases hi - i,
    {
        out.push(s[i]);
        i += 1;
        assert(out@ =~= s@.subrange(lo as int, i as int));
    }
    out
}

/// Whether `needle` stands in `hay` at position `start`.
fn matches_at(hay: &Vec<char>, start: usize, needle: &Vec<char>) -> (r: bool)
    ensures
        r == (start + needle@.len() <= hay@.len() && hay@.subrange(
            start as int,
            start + needle@.len(),
        ) == needle@),
{
    if needle.len() > hay.len() || start > hay.len() - needle.len() {
        return false;
    }
    let mut j: usize = 0;
    while j < needle.len()
        invariant
            start + needle@.len() <= hay@.len() <= usize::MAX,
            j <= needle@.len(),
            forall|k: int| 0 <= k < j ==> hay@[start + k] == needle@[k],
        decreases needle@.len() - j,
    {
        if hay[start + j] != needle[j] {
            assert(hay@.subrange(start as int, start + needle@.len())[j as int] != needle@[j as int]);
            return false;
        }
        j += 1;
    }
    assert(hay@.subrange(start as int, start + needle@.len()) =~= needle@);
    true
}

/// Whether `needle` occurs anywhere in `hay`.
fn contains_chars(hay: &Vec<char>, needle: &Vec<char>) -> (r: bool)
    ensures
        r == is_infix(needle@, hay@),
{
    if needle.len() == 0 {
        let ghost z: int = 0;
        assert(hay@.subrange(z, z + needle@.len()) =~= needle@);
        return true;
    }
    if needle.len() > hay.len() {
        return false;
    }
    let last: usize = hay.len() - needle.len();
    let mut i: usize = 0;
    while i <= last
        invariant
            last == hay@.len() - needle@.len(),
            0 < needle@.len() <= hay@.len() <= usize::MAX,
            i <= last + 1,
            forall|k: int| 0 <= k < i ==> #[trigger] hay@.subrange(k, k + needle@.len()) != needle@,
        decreases last + 1 - i,
    {
        if matches_at(hay, i, needle) {
            return true;
        }
        i += 1;
    }
    false
}

/// Whether `hay` ends with a dot followed by `tail`.
fn ends_with_dot_then(hay: &Vec<char>, tail: &Vec<char>) -> (r: bool)
    ensures
        r == (seq!['.'] + tail@).is_suffix_of(hay@),
{
    let ghost dotted = seq!['.'] + tail@;
    if tail.len() >= hay.len() {
        return false;
    }
    let start: usize = hay.len() - tail.len();
    let r = hay[start - 1] == '.' && matches_at(hay, start, tail);
    proof {
        let window = hay@.subrange(start - 1, hay@.len() as int);
        if r {
            assert(window =~= dotted);
        } else if dotted.is_suffix_of(hay@) {
            assert(window[0] == dotted[0]);
            assert(hay@.subrange(start as int, hay@.len() as int) =~= window.drop_first());
            assert(dotted.drop_first() =~= tail@);
        }
    }
    r
}

proof fn lemma_before_slash_at(s: Seq<char>, i: int)
    requires
        0 <= i <= s.len(),
        forall|j: int| 0 <= j < i ==> s[j] != '/',
        i == s.len() || s[i] == '/',
    ensures
        before_slash(s) == s.take(i),
    decreases i,
{
    if i == 0 {
        assert(s.take(0) =~= Seq::<char>::empty());
    } else {
        lemma_before_slash_at(s.drop_first(), i - 1);
        assert(seq![s[0]] + s.drop_first().take(i - 1) =~= s.take(i));
    }
}

proof fn lemma_strip_dots_at(s: Seq<char>, k: int)
    requires
        0 <= k <= s.len(),
        forall|j: int| 0 <= j < k ==> s[j] == '.',
        k == s.len() || s[k] != '.',
    ensures
        strip_dots(s) == s.skip(k),
    decreases k,
{
    if k == 0 {
        assert(s.skip(0) =~= s);
    } else {
        lemma_strip_dots_at(s.drop_first(), k - 1);
        assert(s.drop_first().skip(k - 1) =~= s.skip(k));
    }
}

/// `s` without `p` in front of it, where it starts with `p`.
fn strip_prefix_chars(s: Vec<char>, p: &Vec<char>) -> (r: Vec<char>)
    ensures
        r@ == strip_prefix_seq(s@, p@),
{
    if matches_at(&s, 0, p) {
        copy_range(&s, p.len(), s.len())
    } else {
        s
    }
}

/// The characters of `s` before its first `/`.
fn before_slash_chars(s: &Vec<char>) -> (r: Vec<char>)
    ensures
        r@ == before_slash(s@),
{
    let mut i: usize = 0;
    while i < s.len() && s[i] != '/'
        invariant
            i <= s@.len(),
            forall|j: int| 0 <= j < i ==> s@[j] != '/',
        decreases s@.len() - i,
    {
        i += 1;
    }
    proof {
        lemma_before_slash_at(s@, i as int);
    }
    copy_range(s, 0, i)
}

/// The characters of `s` without its leading dots.
fn strip_dots_chars(s: &Vec<char>) -> (r: Vec<char>)
    ensures
        r@ == strip_dots(s@),
{
    let mut k: usize = 0;
    while k < s.len() && s[k] == '.'
        invariant
            k <= s@.len(),
            forall|j: int| 0 <= j < k ==> s@[j] == '.',
        decreases s@.len() - k,
    {
        k += 1;
    }
    proof {
        lemma_strip_dots_at(s@, k as int);
    }
    copy_range(s, k, s.len())
}

/// The canonical domain of a URL or domain string: white space trimmed, a
/// leading `http://` or `https://` and then a leading `www.` removed, and
/// everything from the first `/` on dropped.
pub fn extract_domain(url: &str) -> (r: String)
    ensures
        r@ == normalized(url@),
{
    let t = chars_of(trim_str(url));
    let t = strip_prefix_chars(t, &vec!['h', 't', 't', 'p', ':', '/', '/']);
    let t = strip_prefix_chars(t, &vec!['h', 't', 't', 'p', 's', ':', '/', '/']);
    let t = strip_prefix_chars(t, &vec!['w', 'w', 'w', '.']);
    let head = before_slash_chars(&t);
    string_of(&head)
}

/// Whether a cookie whose domain attribute is `cookie_domain` applies to
/// `target_domain`. Total: never fails.
pub fn domain_matches(cookie_domain: &str, target_domain: &str) -> (r: bool)
    ensures
        r == domain_match(cookie_domain@, target_domain@),
{
    let c = strip_dots_chars(&chars_of(cookie_domain));
    let t = strip_dots_chars(&chars_of(target_domain));
    if c.len() == t.len() && matches_at(&t, 0, &c) {
        assert(c@ =~= t@);
        return true;
    }
    proof {
        if c@ == t@ {
            assert(t@.subrange(0, c@.len() as int) =~= t@);
        }
    }
    ends_with_dot_then(&t, &c) || ends_with_dot_then(&c, &t) || contains_chars(&t, &c)
        || contains_chars(&c, &t)
}

proof fn lemma_before_slash_no_slash(s: Seq<char>)
    ensures
        !before_slash(s).contains('/'),
        !s.contains('/') ==> before_slash(s) == s,
    decreases s.len(),
{
    if s.len() > 0 && s[0] != '/' {
        lemma_before_slash_no_slash(s.drop_first());
        let rest = before_slash(s.drop_first());
        assert forall|j: int| 0 <= j < before_slash(s).len() implies before_slash(s)[j] != '/' by {
            if j > 0 {
                assert(before_slash(s)[j] == rest[j - 1]);
            }
        }
        if !s.contains('/') {
            assert(!s.drop_first().contains('/')) by {
                if s.drop_first().contains('/') {
                    let j = choose|j: int| 0 <= j < s.drop_first().len() && s.drop_first()[j] == '/';
                    assert(s[j + 1] == '/');
                }
            }
            assert(seq![s[0]] + s.drop_first() =~= s);
        }
    } else if s.len() > 0 {
        assert(s.contains('/')) by {
            assert(s[0] == '/');
        }
    } else {
        assert(s =~= Seq::<char>::empty());
    }
}

proof fn lemma_no_slash_not_prefixed(s: Seq<char>, p: Seq<char>, i: int)
    requires
        !s.contains('/'),
        0 <= i < p.len(),
        p[i] == '/',
    ensures
        strip_prefix_seq(s, p) == s,
{
    if p.is_prefix_of(s) {
        assert(s[i] == p[i]);
        assert(s.contains('/'));
    }
}

/// Normalizing a second time changes nothing, for every input whose
/// canonical domain neither begins with `www.` nor has white space at
/// either end.
pub proof fn lemma_normalize_idempotent(s: Seq<char>)
    requires
        !www_label().is_prefix_of(normalized(s)),
        normalized(s).len() > 0 ==> !is_white_space(normalized(s)[0]) && !is_white_space(
            normalized(s).last(),
        ),
    ensures
        normalized(normalized(s)) == normalized(s),
{
    let n = normalized(s);
    lemma_before_slash_no_slash(
        strip_prefix_seq(
            strip_prefix_seq(strip_prefix_seq(trimmed(s), http_scheme()), https_scheme()),
            www_label(),
        ),
    );
    assert(trim_start_ws(n) == n);
    assert(trim_end_ws(n) == n);
    lemma_no_slash_not_prefixed(n, http_scheme(), 5);
    lemma_no_slash_not_prefixed(n, https_scheme(), 6);
    lemma_before_slash_no_slash(n);
}

/// After normalization every domain matches itself.
pub proof fn lemma_matches_reflexive(d: Seq<char>)
    ensures
        domain_match(normalized(d), normalized(d)),
{
}

} // verus!
