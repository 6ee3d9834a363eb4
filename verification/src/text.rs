//! Character-level helpers shared by the definition parsers and renderers.
use vstd::prelude::*;

verus! {

/// Whether two string slices hold the same characters.
pub fn str_eq(a: &str, b: &str) -> (r: bool)
    ensures
        r == (a@ == b@),
{
    let x = chars_of(a);
    let y = chars_of(b);
    if x.len() != y.len() {
        return false;
    }
    for i in 0..x.len()
        invariant
            x@ == a@,
            y@ == b@,
            x@.len() == y@.len(),
            forall|j: int| 0 <= j < i ==> x@[j] == y@[j],
    {
        if x[i] != y[i] {
            return false;
        }
    }
    assert(x@ =~= y@);
    true
}

/// Appends one character with `String::push`. Claimed of it: the string afterwards is
/// the string before followed by the character.
#[verifier::external_body]
pub(crate) fn push_char(s: &mut String, c: char)
    ensures
        final(s)@ == old(s)@.push(c),
{
    s.push(c)
}

/// The characters of a string slice, in order.
pub fn chars_of(s: &str) -> (r: Vec<char>)
    ensures
        r@ == s@,
{
    let mut v: Vec<char> = Vec::new();
    for c in it: s.chars()
        invariant
            v@ == it.seq().take(it.index() as int),
            it.seq() == s@,
    {
        v.push(c);
    }
    v
}

/// Builds a string from the characters `cs[from..to]`.
pub fn string_of(cs: &Vec<char>, from: usize, to: usize) -> (r: String)
    requires
        from <= to <= cs@.len(),
    ensures
        r@ == cs@.subrange(from as int, to as int),
{
    let mut s = String::new();
    let mut i = from;
    while i < to
        invariant
            from <= i <= to <= cs@.len(),
            s@ == cs@.subrange(from as int, i as int),
        decreases to - i,
    {
        push_char(&mut s, cs[i]);
        assert(cs@.subrange(from as int, i + 1) =~= cs@.subrange(from as int, i as int).push(cs@[i as int]));
        i = i + 1;
    }
    s
}

/// The Unicode `White_Space` property: the characters that `char::is_whitespace` accepts,
/// and that the `\s` class of a regular expression and `str::trim` use.
pub open spec fn is_ws(c: char) -> bool {
    ||| c == '\t' || c == '\n' || c == '\u{0B}' || c == '\u{0C}' || c == '\r' || c == ' '
    ||| c == '\u{85}' || c == '\u{A0}' || c == '\u{1680}'
    ||| ('\u{2000}' <= c && c <= '\u{200A}')
    ||| c == '\u{2028}' || c == '\u{2029}' || c == '\u{202F}' || c == '\u{205F}' || c == '\u{3000}'
}

/// Whether `c` has the Unicode `White_Space` property.
pub fn is_whitespace(c: char) -> (r: bool)
    ensures
        r == is_ws(c),
{
    c == '\t' || c == '\n' || c == '\u{0B}' || c == '\u{0C}' || c == '\r' || c == ' '
        || c == '\u{85}' || c == '\u{A0}' || c == '\u{1680}'
        || ('\u{2000}' <= c && c <= '\u{200A}')
        || c == '\u{2028}' || c == '\u{2029}' || c == '\u{202F}' || c == '\u{205F}' || c == '\u{3000}'
}

/// Number of whitespace characters at the start of `s`.
pub open spec fn leading_ws(s: Seq<char>) -> nat
    decreases s.len(),
{
    if s.len() == 0 || !is_ws(s[0]) {
        0
    } else {
        1 + leading_ws(s.drop_first())
    }
}

/// Number of whitespace characters at the end of `s`.
pub open spec fn trailing_ws(s: Seq<char>) -> nat
    decreases s.len(),
{
    if s.len() == 0 || !is_ws(s.last()) {
        0
    } else {
        1 + trailing_ws(s.drop_last())
    }
}

/// `s` without its leading and trailing whitespace, as `str::trim` gives it.
pub open spec fn trim(s: Seq<char>) -> Seq<char> {
    let l = leading_ws(s) as int;
    if l == s.len() {
        Seq::empty()
    } else {
        s.subrange(l, s.len() - trailing_ws(s))
    }
}

pub proof fn lemma_leading_ws(s: Seq<char>)
    ensures
        leading_ws(s) <= s.len(),
        forall|i: int| 0 <= i < leading_ws(s) ==> is_ws(#[trigger] s[i]),
        leading_ws(s) < s.len() ==> !is_ws(s[leading_ws(s) as int]),
    decreases s.len(),
{
    if s.len() > 0 && is_ws(s[0]) {
        lemma_leading_ws(s.drop_first());
        assert forall|i: int| 0 <= i < leading_ws(s) implies is_ws(#[trigger] s[i]) by {
            if i > 0 {
                assert(s[i] == s.drop_first()[i - 1]);
            }
        }
    }
}

pub proof fn lemma_trailing_ws(s: Seq<char>)
    ensures
        trailing_ws(s) <= s.len(),
        forall|i: int| s.len() - trailing_ws(s) <= i < s.len() ==> is_ws(#[trigger] s[i]),
        trailing_ws(s) < s.len() ==> !is_ws(s[s.len() - trailing_ws(s) - 1]),
    decreases s.len(),
{
    if s.len() > 0 && is_ws(s.last()) {
        lemma_trailing_ws(s.drop_last());
        assert forall|i: int| s.len() - trailing_ws(s) <= i < s.len() implies is_ws(#[trigger] s[i]) by {
            if i < s.len() - 1 {
                assert(s[i] == s.drop_last()[i]);
            }
        }
    }
}

/// A run of whitespace of a given length, found from the start.
pub proof fn lemma_leading_ws_exact(s: Seq<char>, k: int)
    requires
        0 <= k <= s.len(),
        forall|i: int| 0 <= i < k ==> is_ws(#[trigger] s[i]),
        k < s.len() ==> !is_ws(s[k]),
    ensures
        leading_ws(s) == k,
    decreases s.len(),
{
    if k > 0 {
        assert(is_ws(s[0]));
        let t = s.drop_first();
        assert forall|i: int| 0 <= i < k - 1 implies is_ws(#[trigger] t[i]) by {
            assert(t[i] == s[i + 1]);
        }
        if k - 1 < t.len() {
            assert(t[k - 1] == s[k]);
        }
        lemma_leading_ws_exact(t, k - 1);
    }
}

pub proof fn lemma_trailing_ws_exact(s: Seq<char>, k: int)
    requires
        0 <= k <= s.len(),
        forall|i: int| s.len() - k <= i < s.len() ==> is_ws(#[trigger] s[i]),
        k < s.len() ==> !is_ws(s[s.len() - k - 1]),
    ensures
        trailing_ws(s) == k,
    decreases s.len(),
{
    if k > 0 {
        assert(is_ws(s[s.len() - 1]));
        let t = s.drop_last();
        assert forall|i: int| t.len() - (k - 1) <= i < t.len() implies is_ws(#[trigger] t[i]) by {
            assert(t[i] == s[i]);
        }
        if k - 1 < t.len() {
            assert(t[t.len() - (k - 1) - 1] == s[s.len() - k - 1]);
        }
        lemma_trailing_ws_exact(t, k - 1);
    }
}

/// Trims `cs[from..to]` and returns the result as a string.
pub fn trimmed_string_of(cs: &Vec<char>, from: usize, to: usize) -> (r: String)
    requires
        from <= to <= cs@.len(),
    ensures
        r@ == trim(cs@.subrange(from as int, to as int)),
{
    let ghost s = cs@.subrange(from as int, to as int);
    let mut a = from;
    while a < to && is_whitespace(cs[a])
        invariant
            from <= a <= to <= cs@.len(),
            s == cs@.subrange(from as int, to as int),
            forall|i: int| 0 <= i < a - from ==> is_ws(#[trigger] s[i]),
        decreases to - a,
    {
        a = a + 1;
    }
    proof {
        if a < to {
            assert(s[a - from] == cs@[a as int]);
        }
        lemma_leading_ws_exact(s, a - from);
    }
    if a == to {
        return String::new();
    }
    let mut b = to;
    while b > a && is_whitespace(cs[b - 1])
        invariant
            from <= a < to <= cs@.len(),
            a <= b <= to,
            s == cs@.subrange(from as int, to as int),
            !is_ws(cs@[a as int]),
            forall|i: int| b - from <= i < s.len() ==> is_ws(#[trigger] s[i]),
        decreases b,
    {
        b = b - 1;
    }
    proof {
        assert(s[a - from] == cs@[a as int]);
        assert(b > a);
        assert(s[b - from - 1] == cs@[b - 1]);
        lemma_trailing_ws_exact(s, to - b);
        assert(s.subrange(a - from, s.len() - (to - b)) =~= cs@.subrange(a as int, b as int));
    }
    string_of(cs, a, b)
}

/// A copy of a list of strings.
pub fn clone_strings(v: &Vec<String>) -> (r: Vec<String>)
    ensures
        r.deep_view() == v.deep_view(),
{
    let mut r: Vec<String> = Vec::new();
    for i in 0..v.len()
        invariant
            r@.len() == i,
            forall|j: int| 0 <= j < i ==> #[trigger] r@[j]@ == v@[j]@,
    {
        r.push(v[i].clone());
    }
    assert(r.deep_view() =~= v.deep_view());
    r
}

/// `s` has no whitespace at its start or its end.
pub open spec fn is_trimmed(s: Seq<char>) -> bool {
    s.len() == 0 || (!is_ws(s[0]) && !is_ws(s.last()))
}

/// Trimming a string that has no whitespace at either end leaves it unchanged.
pub proof fn lemma_trim_trimmed(s: Seq<char>)
    requires
        is_trimmed(s),
    ensures
        trim(s) == s,
{
    if s.len() > 0 {
        lemma_leading_ws_exact(s, 0);
        lemma_trailing_ws_exact(s, 0);
        assert(s.subrange(0, s.len() as int) =~= s);
    } else {
        lemma_leading_ws_exact(s, 0);
        assert(s =~= Seq::<char>::empty());
    }
}

/// Trimming ignores whitespace added at the start.
pub proof fn lemma_trim_ws_prefix(w: Seq<char>, s: Seq<char>)
    requires
        forall|i: int| 0 <= i < w.len() ==> is_ws(#[trigger] w[i]),
    ensures
        trim(w + s) == trim(s),
{
    let t = w + s;
    lemma_leading_ws(s);
    lemma_trailing_ws(s);
    let l = leading_ws(s) as int;
    assert forall|i: int| 0 <= i < w.len() + l implies is_ws(#[trigger] t[i]) by {
        if i >= w.len() {
            assert(t[i] == s[i - w.len()]);
        }
    }
    if l < s.len() {
        assert(t[w.len() + l] == s[l]);
    }
    lemma_leading_ws_exact(t, w.len() + l);
    if l < s.len() {
        let k = trailing_ws(s) as int;
        assert forall|i: int| t.len() - k <= i < t.len() implies is_ws(#[trigger] t[i]) by {
            assert(t[i] == s[i - w.len()]);
        }
        assert(t[t.len() - k - 1] == s[s.len() - k - 1]);
        lemma_trailing_ws_exact(t, k);
        assert(t.subrange(w.len() + l, t.len() - k) =~= s.subrange(l, s.len() - k));
    }
}

/// Trimming ignores whitespace added at the end.
pub proof fn lemma_trim_ws_suffix(s: Seq<char>, w: Seq<char>)
    requires
        forall|i: int| 0 <= i < w.len() ==> is_ws(#[trigger] w[i]),
    ensures
        trim(s + w) == trim(s),
{
    let t = s + w;
    lemma_leading_ws(s);
    lemma_trailing_ws(s);
    let l = leading_ws(s) as int;
    if l < s.len() {
        assert forall|i: int| 0 <= i < l implies is_ws(#[trigger] t[i]) by {
            assert(t[i] == s[i]);
        }
        assert(t[l] == s[l]);
        lemma_leading_ws_exact(t, l);
        let k = trailing_ws(s) as int;
        assert forall|i: int| t.len() - (k + w.len()) <= i < t.len() implies is_ws(#[trigger] t[i]) by {
            if i < s.len() {
                assert(t[i] == s[i]);
            } else {
                assert(t[i] == w[i - s.len()]);
            }
        }
        assert(t[t.len() - (k + w.len()) - 1] == s[s.len() - k - 1]);
        lemma_trailing_ws_exact(t, k + w.len());
        assert(t.subrange(l, t.len() - (k + w.len())) =~= s.subrange(l, s.len() - k));
    } else {
        assert forall|i: int| 0 <= i < t.len() implies is_ws(#[trigger] t[i]) by {
            if i < s.len() {
                assert(t[i] == s[i]);
            } else {
                assert(t[i] == w[i - s.len()]);
            }
        }
        lemma_leading_ws_exact(t, t.len() as int);
    }
}

} // verus!
