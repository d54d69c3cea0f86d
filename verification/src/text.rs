//! Character-level text handling: whitespace trimming and comma splitting.

use vstd::prelude::*;

verus! {

/// Whether `c` has the Unicode `White_Space` property: the 25 code points
/// U+0009..U+000D, U+0020, U+0085, U+00A0, U+1680, U+2000..U+200A, U+2028,
/// U+2029, U+202F, U+205F and U+3000.
pub open spec fn is_unicode_whitespace(c: char) -> bool {
    let u = c as int;
    ||| 0x9 <= u <= 0xD
    ||| u == 0x20
    ||| u == 0x85
    ||| u == 0xA0
    ||| u == 0x1680
    ||| 0x2000 <= u <= 0x200A
    ||| u == 0x2028
    ||| u == 0x2029
    ||| u == 0x202F
    ||| u == 0x205F
    ||| u == 0x3000
}

/// `char::is_whitespace`. Promised, as its documentation says: the result is
/// whether `c` has the Unicode `White_Space` property.
#[verifier::external_body]
pub(crate) fn char_is_whitespace(c: char) -> (r: bool)
    ensures
        r == is_unicode_whitespace(c),
{
    c.is_whitespace()
}

/// `[a, b)` delimits `s` with its leading and trailing whitespace removed.
pub open spec fn trim_bounds(s: Seq<char>, a: int, b: int) -> bool {
    &&& 0 <= a <= b <= s.len()
    &&& forall|i: int| 0 <= i < a ==> is_unicode_whitespace(#[trigger] s[i])
    &&& forall|i: int| b <= i < s.len() ==> is_unicode_whitespace(#[trigger] s[i])
    &&& a < b ==> !is_unicode_whitespace(s[a]) && !is_unicode_whitespace(s[b - 1])
}

/// `s` without its leading and trailing whitespace (what `str::trim` returns).
pub open spec fn trim(s: Seq<char>) -> Seq<char> {
    let (a, b) = choose|a: int, b: int| trim_bounds(s, a, b);
    s.subrange(a, b)
}

/// Any pair of trim bounds delimits the same text.
pub proof fn lemma_trim_bounds_unique(s: Seq<char>, a: int, b: int)
    requires
        trim_bounds(s, a, b),
    ensures
        trim(s) == s.subrange(a, b),
{
    let (c, d) = choose|c: int, d: int| trim_bounds(s, c, d);
    assert(trim_bounds(s, c, d));
    if a < b {
        assert(!is_unicode_whitespace(s[a]));
        if c < d {
            assert(!is_unicode_whitespace(s[c]));
            assert(!is_unicode_whitespace(s[d - 1]));
            assert(!is_unicode_whitespace(s[b - 1]));
            assert(a == c);
            assert(b == d);
        } else {
            assert(a < c || a >= d);
            assert(false);
        }
    } else {
        if c < d {
            assert(!is_unicode_whitespace(s[c]));
            assert(c < a || c >= b);
            assert(false);
        }
        assert(s.subrange(a, b) =~= s.subrange(c, d));
    }
}

/// Trimming twice is trimming once.
pub proof fn lemma_trim_idempotent(s: Seq<char>)
    ensures
        trim(trim(s)) == trim(s),
{
    let (a, b) = choose|a: int, b: int| trim_bounds(s, a, b);
    lemma_trim_exists(s);
    assert(trim_bounds(s, a, b));
    let t = s.subrange(a, b);
    assert(trim_bounds(t, 0, t.len() as int));
    lemma_trim_bounds_unique(t, 0, t.len() as int);
    assert(t.subrange(0, t.len() as int) =~= t);
}

/// Every text has trim bounds.
pub proof fn lemma_trim_exists(s: Seq<char>)
    ensures
        exists|a: int, b: int| trim_bounds(s, a, b),
    decreases s.len(),
{
    if s.len() == 0 {
        assert(trim_bounds(s, 0, 0));
    } else if is_unicode_whitespace(s.last()) {
        let p = s.drop_last();
        lemma_trim_exists(p);
        let (a, b) = choose|a: int, b: int| trim_bounds(p, a, b);
        assert(forall|i: int| 0 <= i < p.len() ==> p[i] == s[i]);
        if a < b {
            assert forall|i: int| b <= i < s.len() implies is_unicode_whitespace(#[trigger] s[i]) by {
                if i < p.len() {
                    assert(p[i] == s[i]);
                }
            }
            assert(trim_bounds(s, a, b));
        } else {
            assert forall|i: int| 0 <= i < s.len() implies is_unicode_whitespace(#[trigger] s[i]) by {
                if i < p.len() {
                    assert(p[i] == s[i]);
                    if i < a {
                    } else {
                    }
                }
            }
            assert(trim_bounds(s, 0, 0));
        }
    } else {
        let n = s.len() as int;
        let p = s.drop_last();
        lemma_trim_exists(p);
        let (a, b) = choose|a: int, b: int| trim_bounds(p, a, b);
        assert(forall|i: int| 0 <= i < p.len() ==> p[i] == s[i]);
        if a < b {
            assert(trim_bounds(s, a, n));
        } else {
            assert forall|i: int| 0 <= i < n - 1 implies is_unicode_whitespace(#[trigger] s[i]) by {
                assert(p[i] == s[i]);
            }
            assert(trim_bounds(s, n - 1, n));
        }
    }
}

/// The characters of `s`, in order.
pub fn chars_of(s: &str) -> (v: Vec<char>)
    ensures
        v@ == s@,
{
    let mut v: Vec<char> = Vec::new();
    for c in it: s.chars()
        invariant
            v@ == it.seq().take(it.index() as int),
    {
        v.push(c);
    }
    v
}

/// Bounds of `chars` with leading and trailing whitespace removed.
pub fn trim_range(chars: &Vec<char>, lo: usize, hi: usize) -> (r: (usize, usize))
    requires
        lo <= hi <= chars@.len(),
    ensures
        lo <= r.0 <= r.1 <= hi,
        trim_bounds(chars@.subrange(lo as int, hi as int), r.0 - lo, r.1 - lo),
{
    let ghost s = chars@.subrange(lo as int, hi as int);
    let mut a = lo;
    while a < hi && char_is_whitespace(chars[a])
        invariant
            lo <= a <= hi <= chars@.len(),
            s == chars@.subrange(lo as int, hi as int),
            forall|i: int| 0 <= i < a - lo ==> is_unicode_whitespace(#[trigger] s[i]),
        decreases hi - a,
    {
        a = a + 1;
    }
    let mut b = hi;
    while b > a && char_is_whitespace(chars[b - 1])
        invariant
            lo <= a <= b <= hi <= chars@.len(),
            s == chars@.subrange(lo as int, hi as int),
            forall|i: int| 0 <= i < a - lo ==> is_unicode_whitespace(#[trigger] s[i]),
            a < hi ==> !is_unicode_whitespace(chars@[a as int]),
            forall|i: int| b - lo <= i < hi - lo ==> is_unicode_whitespace(#[trigger] s[i]),
        decreases b - a,
    {
        b = b - 1;
    }
    assert(a < b ==> s[a - lo] == chars@[a as int] && s[b - 1 - lo] == chars@[b - 1]);
    (a, b)
}

/// The characters `chars[lo..hi]` as a string.
pub fn string_from_chars(chars: &Vec<char>, lo: usize, hi: usize) -> (r: String)
    requires
        lo <= hi <= chars@.len(),
    ensures
        r@ == chars@.subrange(lo as int, hi as int),
{
    let mut r = String::new();
    let mut i = lo;
    while i < hi
        invariant
            lo <= i <= hi <= chars@.len(),
            r@ == chars@.subrange(lo as int, i as int),
        decreases hi - i,
    {
        crate::domain::ids::push_char(&mut r, chars[i]);
        assert(chars@.subrange(lo as int, i + 1) =~= chars@.subrange(lo as int, i as int).push(chars@[i as int]));
        i = i + 1;
    }
    r
}

/// `s` with leading and trailing whitespace removed, as an owned string.
pub fn trim_owned(s: &str) -> (r: String)
    ensures
        r@ == trim(s@),
{
    let chars = chars_of(s);
    let n = chars.len();
    let (a, b) = trim_range(&chars, 0, n);
    proof {
        assert(chars@.subrange(0, n as int) =~= s@);
        lemma_trim_bounds_unique(s@, a as int, b as int);
    }
    string_from_chars(&chars, a, b)
}

} // verus!
