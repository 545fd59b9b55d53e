//! Character-level text operations shared by the rest of the library:
//! trimming, lowercasing, substring search, decimal formatting, splitting
//! into lines and joining.
use vstd::prelude::*;

verus! {

// ---------------------------------------------------------------------------
// Unicode character classes and case mapping, as std computes them
// ---------------------------------------------------------------------------

/// What `str::to_lowercase` returns for a string: the Unicode lowercase
/// mapping of the whole string.
pub uninterp spec fn lowercase(s: Seq<char>) -> Seq<char>;

/// Whether `char::is_alphanumeric` holds of a character (Unicode Alphabetic
/// or Numeric).
pub uninterp spec fn is_alphanumeric(c: char) -> bool;

/// Whether a character is white space, as `char::is_whitespace` decides it:
/// it has the Unicode White_Space property, which holds of exactly these
/// code points: U+0009 to U+000D, U+0020, U+0085, U+00A0, U+1680, U+2000 to
/// U+200A, U+2028, U+2029, U+202F, U+205F and U+3000.
pub open spec fn is_whitespace(c: char) -> bool {
    let u = c as u32;
    ||| 0x9 <= u <= 0xd
    ||| u == 0x20
    ||| u == 0x85
    ||| u == 0xa0
    ||| u == 0x1680
    ||| 0x2000 <= u <= 0x200a
    ||| u == 0x2028
    ||| u == 0x2029
    ||| u == 0x202f
    ||| u == 0x205f
    ||| u == 0x3000
}

/// Every character of `s` is ASCII.
pub open spec fn all_ascii(s: Seq<char>) -> bool {
    forall|i: int| 0 <= i < s.len() ==> (#[trigger] s[i] as u32) < 128
}

/// The ASCII lowercase form of a character: 'A' to 'Z' become 'a' to 'z',
/// anything else stays.
pub open spec fn ascii_lower_char(c: char) -> char {
    if 65 <= (c as u32) <= 90 {
        ((c as u32) + 32) as char
    } else {
        c
    }
}

/// Each character of `s` in its ASCII lowercase form.
pub open spec fn ascii_lowercase(s: Seq<char>) -> Seq<char> {
    s.map_values(|c: char| ascii_lower_char(c))
}

/// Calls std's `str::to_lowercase`. The contract claims that the result is
/// `lowercase` of the argument, a function of the characters alone; that
/// the empty string lowercases to the empty string; and that on an all-ASCII
/// string it lowercases exactly the ASCII capitals, as std's documentation of
/// `str::to_ascii_lowercase` relates the two ("to lowercase ASCII characters
/// in addition to non-ASCII characters, use `str::to_lowercase`"). The
/// Unicode case tables for other characters are left unsaid.
#[verifier::external_body]
pub(crate) fn to_lowercase(s: &str) -> (r: String)
    ensures
        r@ == lowercase(s@),
        s@.len() == 0 ==> r@.len() == 0,
        all_ascii(s@) ==> r@ == ascii_lowercase(s@),
{
    s.to_lowercase()
}

/// Calls std's `char::is_alphanumeric`. The contract claims only that the
/// answer is `is_alphanumeric` of the character; which characters are
/// alphanumeric is left unsaid.
#[verifier::external_body]
pub(crate) fn char_is_alphanumeric(c: char) -> (r: bool)
    ensures
        r == is_alphanumeric(c),
{
    c.is_alphanumeric()
}

/// Whether a character is white space.
pub fn char_is_whitespace(c: char) -> (r: bool)
    ensures
        r == is_whitespace(c),
{
    let u = c as u32;
    (0x9 <= u && u <= 0xd) || u == 0x20 || u == 0x85 || u == 0xa0 || u == 0x1680 || (0x2000 <= u
        && u <= 0x200a) || u == 0x2028 || u == 0x2029 || u == 0x202f || u == 0x205f || u == 0x3000
}

/// Calls std's `String::push`, which appends one character.
#[verifier::external_body]
pub(crate) fn push_char(s: &mut String, c: char)
    ensures
        final(s)@ == old(s)@.push(c),
{
    s.push(c);
}

// ---------------------------------------------------------------------------
// Conversions between strings and character vectors
// ---------------------------------------------------------------------------

/// The characters of a string slice, in order.
pub fn chars_of(s: &str) -> (v: Vec<char>)
    ensures
        v@ == s@,
{
    broadcast use vstd::string::group_string_axioms;

    let mut v: Vec<char> = Vec::new();
    for c in it: s.chars()
        invariant
            v@ == it.seq().take(it.index() as int),
            it.seq() == s@,
    {
        v.push(c);
    }
    v
}

/// The string made of the characters `v[lo..hi]`.
pub fn string_from_range(v: &Vec<char>, lo: usize, hi: usize) -> (r: String)
    requires
        lo <= hi <= v.len(),
    ensures
        r@ == v@.subrange(lo as int, hi as int),
{
    let mut r = String::new();
    let mut i = lo;
    while i < hi
        invariant
            lo <= i <= hi <= v.len(),
            r@ == v@.subrange(lo as int, i as int),
        decreases hi - i,
    {
        push_char(&mut r, v[i]);
        assert(v@.subrange(lo as int, i + 1) =~= v@.subrange(lo as int, i as int).push(v@[i as int]));
        i += 1;
    }
    r
}

/// The string made of all the characters of `v`.
pub fn string_from_chars(v: &Vec<char>) -> (r: String)
    ensures
        r@ == v@,
{
    let r = string_from_range(v, 0, v.len());
    assert(v@.subrange(0, v@.len() as int) =~= v@);
    r
}

/// Whether two character sequences are equal.
pub fn chars_equal(a: &Vec<char>, b: &Vec<char>) -> (r: bool)
    ensures
        r == (a@ == b@),
{
    if a.len() != b.len() {
        return false;
    }
    let mut i: usize = 0;
    while i < a.len()
        invariant
            a.len() == b.len(),
            i <= a.len(),
            forall|j: int| 0 <= j < i ==> a@[j] == b@[j],
        decreases a.len() - i,
    {
        if a[i] != b[i] {
            return false;
        }
        i += 1;
    }
    assert(a@ =~= b@);
    true
}

/// Whether two string slices hold the same characters.
pub fn str_equal(a: &str, b: &str) -> (r: bool)
    ensures
        r == (a@ == b@),
{
    let va = chars_of(a);
    let vb = chars_of(b);
    chars_equal(&va, &vb)
}

// ---------------------------------------------------------------------------
// Trimming
// ---------------------------------------------------------------------------

/// `s` without the characters at its front that satisfy `p`.
pub open spec fn drop_leading(s: Seq<char>, p: spec_fn(char) -> bool) -> Seq<char>
    decreases s.len(),
{
    if s.len() > 0 && p(s[0]) {
        drop_leading(s.drop_first(), p)
    } else {
        s
    }
}

/// `s` without the characters at its end that satisfy `p`.
pub open spec fn drop_trailing(s: Seq<char>, p: spec_fn(char) -> bool) -> Seq<char>
    decreases s.len(),
{
    if s.len() > 0 && p(s.last()) {
        drop_trailing(s.drop_last(), p)
    } else {
        s
    }
}

/// `s` with the characters that satisfy `p` removed from both ends.
pub open spec fn trim_by(s: Seq<char>, p: spec_fn(char) -> bool) -> Seq<char> {
    drop_trailing(drop_leading(s, p), p)
}

/// The white space characters.
pub open spec fn whitespace() -> spec_fn(char) -> bool {
    |c: char| is_whitespace(c)
}

/// The underscore character.
pub open spec fn underscore() -> spec_fn(char) -> bool {
    |c: char| c == '_'
}

/// What `str::trim` leaves of a string: white space removed from both ends.
pub open spec fn trimmed(s: Seq<char>) -> Seq<char> {
    trim_by(s, whitespace())
}

/// Dropping the leading run of `p` characters is skipping the first `k`
/// characters, where `k` is the first position that does not satisfy `p`.
pub proof fn lemma_drop_leading_at(s: Seq<char>, p: spec_fn(char) -> bool, k: int)
    requires
        0 <= k <= s.len(),
        forall|j: int| 0 <= j < k ==> p(#[trigger] s[j]),
        k == s.len() || !p(s[k]),
    ensures
        drop_leading(s, p) == s.skip(k),
    decreases k,
{
    if k == 0 {
        assert(s.skip(0) =~= s);
    } else {
        assert(p(s[0]));
        let t = s.drop_first();
        assert forall|j: int| 0 <= j < k - 1 implies p(#[trigger] t[j]) by {
            assert(t[j] == s[j + 1]);
        }
        lemma_drop_leading_at(t, p, k - 1);
        assert(t.skip(k - 1) =~= s.skip(k));
    }
}

/// Dropping the trailing run of `p` characters is keeping the first `k`
/// characters, where `k` is one past the last position that does not
/// satisfy `p`.
pub proof fn lemma_drop_trailing_at(s: Seq<char>, p: spec_fn(char) -> bool, k: int)
    requires
        0 <= k <= s.len(),
        forall|j: int| k <= j < s.len() ==> p(#[trigger] s[j]),
        k == 0 || !p(s[k - 1]),
    ensures
        drop_trailing(s, p) == s.take(k),
    decreases s.len() - k,
{
    if k == s.len() {
        assert(s.take(k) =~= s);
    } else {
        assert(p(s.last()));
        let t = s.drop_last();
        assert forall|j: int| k <= j < t.len() implies p(#[trigger] t[j]) by {
            assert(t[j] == s[j]);
        }
        lemma_drop_trailing_at(t, p, k);
        assert(t.take(k) =~= s.take(k));
    }
}

/// Trimming is keeping the range `[a, b)` when everything outside it satisfies
/// `p` and, unless it is empty, its first and last characters do not.
pub proof fn lemma_trim_by_range(s: Seq<char>, p: spec_fn(char) -> bool, a: int, b: int)
    requires
        0 <= a <= b <= s.len(),
        forall|j: int| 0 <= j < a ==> p(#[trigger] s[j]),
        forall|j: int| b <= j < s.len() ==> p(#[trigger] s[j]),
        a < b ==> !p(s[a]) && !p(s[b - 1]),
    ensures
        trim_by(s, p) == s.subrange(a, b),
{
    if a < b {
        lemma_drop_leading_at(s, p, a);
        let t = s.skip(a);
        assert forall|j: int| b - a <= j < t.len() implies p(#[trigger] t[j]) by {
            assert(t[j] == s[j + a]);
        }
        assert(t[b - a - 1] == s[b - 1]);
        lemma_drop_trailing_at(t, p, b - a);
        assert(t.take(b - a) =~= s.subrange(a, b));
    } else {
        assert forall|j: int| 0 <= j < s.len() implies p(#[trigger] s[j]) by {
            if j >= a {
                assert(b <= j);
            }
        }
        lemma_drop_leading_at(s, p, s.len() as int);
        let t = s.skip(s.len() as int);
        assert(t.len() == 0);
        assert(drop_trailing(t, p) == t);
        assert(t =~= s.subrange(a, b));
    }
}

/// The first position of `s` at or after `i` whose character does not
/// satisfy `p`, or the length of `s` if there is none.
pub open spec fn first_kept(s: Seq<char>, p: spec_fn(char) -> bool, i: int) -> int
    decreases s.len() - i,
{
    if i >= s.len() || i < 0 {
        s.len() as int
    } else if !p(s[i]) {
        i
    } else {
        first_kept(s, p, i + 1)
    }
}

/// One past the last position of `s` before `i` whose character does not
/// satisfy `p`, or 0 if there is none.
pub open spec fn last_kept(s: Seq<char>, p: spec_fn(char) -> bool, i: int) -> int
    decreases i,
{
    if i <= 0 || i > s.len() {
        0
    } else if !p(s[i - 1]) {
        i
    } else {
        last_kept(s, p, i - 1)
    }
}

pub proof fn lemma_first_kept(s: Seq<char>, p: spec_fn(char) -> bool, i: int)
    requires
        0 <= i <= s.len(),
    ensures
        i <= first_kept(s, p, i) <= s.len(),
        forall|j: int| i <= j < first_kept(s, p, i) ==> p(#[trigger] s[j]),
        first_kept(s, p, i) < s.len() ==> !p(s[first_kept(s, p, i)]),
    decreases s.len() - i,
{
    if i < s.len() && p(s[i]) {
        lemma_first_kept(s, p, i + 1);
    }
}

pub proof fn lemma_last_kept(s: Seq<char>, p: spec_fn(char) -> bool, i: int)
    requires
        0 <= i <= s.len(),
    ensures
        0 <= last_kept(s, p, i) <= i,
        forall|j: int| last_kept(s, p, i) <= j < i ==> p(#[trigger] s[j]),
        last_kept(s, p, i) > 0 ==> !p(s[last_kept(s, p, i) - 1]),
    decreases i,
{
    if i > 0 && p(s[i - 1]) {
        lemma_last_kept(s, p, i - 1);
    }
}

/// Trimming keeps exactly the range from the first to the last character
/// that does not satisfy `p`.
pub proof fn lemma_trim_by_bounds(s: Seq<char>, p: spec_fn(char) -> bool)
    ensures
        ({
            let a = first_kept(s, p, 0);
            let b = last_kept(s, p, s.len() as int);
            &&& 0 <= a <= b <= s.len() || (a == s.len() && b == 0)
            &&& trim_by(s, p) == if a < b { s.subrange(a, b) } else { Seq::<char>::empty() }
        }),
{
    let a = first_kept(s, p, 0);
    let b = last_kept(s, p, s.len() as int);
    lemma_first_kept(s, p, 0);
    lemma_last_kept(s, p, s.len() as int);
    if a < s.len() {
        // s[a] is kept, so the last kept position is at or after it.
        if b <= a {
            assert(p(s[a]));
        }
        lemma_trim_by_range(s, p, a, b);
    } else {
        if b > 0 {
            assert(p(s[b - 1]));
        }
        lemma_trim_by_range(s, p, s.len() as int, s.len() as int);
        assert(s.subrange(s.len() as int, s.len() as int) =~= Seq::<char>::empty());
    }
}

/// Trimming a second time changes nothing.
pub proof fn lemma_trim_by_idempotent(s: Seq<char>, p: spec_fn(char) -> bool)
    ensures
        trim_by(trim_by(s, p), p) == trim_by(s, p),
{
    lemma_trim_by_bounds(s, p);
    let a = first_kept(s, p, 0);
    let b = last_kept(s, p, s.len() as int);
    let t = trim_by(s, p);
    if a < b {
        lemma_first_kept(s, p, 0);
        lemma_last_kept(s, p, s.len() as int);
        assert(t[0] == s[a]);
        assert(t[t.len() - 1] == s[b - 1]);
        lemma_trim_by_range(t, p, 0, t.len() as int);
        assert(t.subrange(0, t.len() as int) =~= t);
    } else {
        lemma_trim_by_range(t, p, 0, 0);
        assert(t.subrange(0, 0) =~= t);
    }
}

/// A trimmed string neither starts nor ends with a character that
/// satisfies `p`.
pub proof fn lemma_trim_by_ends(s: Seq<char>, p: spec_fn(char) -> bool)
    ensures
        trim_by(s, p).len() > 0 ==> !p(trim_by(s, p)[0]) && !p(trim_by(s, p).last()),
        trim_by(s, p).len() <= s.len(),
{
    lemma_trim_by_bounds(s, p);
    lemma_first_kept(s, p, 0);
    lemma_last_kept(s, p, s.len() as int);
}

/// Trimming keeps a stretch `[a, b)` of the text as it is: everything before
/// and after it is white space, and the stretch, unless empty, neither starts
/// nor ends with white space.
pub proof fn lemma_trimmed_is_inner_stretch(s: Seq<char>) -> (r: (int, int))
    ensures
        0 <= r.0 <= r.1 <= s.len(),
        trimmed(s) == s.subrange(r.0, r.1),
        forall|j: int| 0 <= j < r.0 ==> is_whitespace(#[trigger] s[j]),
        forall|j: int| r.1 <= j < s.len() ==> is_whitespace(#[trigger] s[j]),
        r.0 < r.1 ==> !is_whitespace(s[r.0]) && !is_whitespace(s[r.1 - 1]),
{
    let p = whitespace();
    lemma_trim_by_bounds(s, p);
    lemma_first_kept(s, p, 0);
    lemma_last_kept(s, p, s.len() as int);
    let a = first_kept(s, p, 0);
    let b = last_kept(s, p, s.len() as int);
    if a < b {
        assert forall|j: int| 0 <= j < a implies is_whitespace(#[trigger] s[j]) by {
            assert(p(s[j]));
        }
        assert forall|j: int| b <= j < s.len() implies is_whitespace(#[trigger] s[j]) by {
            assert(p(s[j]));
        }
        (a, b)
    } else {
        assert forall|j: int| 0 <= j < s.len() implies is_whitespace(#[trigger] s[j]) by {
            if j >= a {
                assert(b <= j);
            }
            assert(p(s[j]));
        }
        assert(s.subrange(0, 0) =~= Seq::<char>::empty());
        (0, 0)
    }
}

/// Characters that satisfy `p` added around a string are trimmed away with
/// the rest.
pub proof fn lemma_trim_by_padding(
    w1: Seq<char>,
    s: Seq<char>,
    w2: Seq<char>,
    p: spec_fn(char) -> bool,
)
    requires
        forall|j: int| 0 <= j < w1.len() ==> p(#[trigger] w1[j]),
        forall|j: int| 0 <= j < w2.len() ==> p(#[trigger] w2[j]),
    ensures
        trim_by(w1 + s + w2, p) == trim_by(s, p),
{
    let t = w1 + s + w2;
    let n1 = w1.len() as int;
    lemma_trim_by_bounds(s, p);
    lemma_first_kept(s, p, 0);
    lemma_last_kept(s, p, s.len() as int);
    let a = first_kept(s, p, 0);
    let b = last_kept(s, p, s.len() as int);
    assert forall|j: int| 0 <= j < s.len() implies t[n1 + j] == s[j] by {}
    if a < b {
        assert forall|j: int| 0 <= j < n1 + a implies p(#[trigger] t[j]) by {
            if j < n1 {
                assert(t[j] == w1[j]);
            } else {
                assert(t[j] == s[j - n1]);
            }
        }
        assert forall|j: int| n1 + b <= j < t.len() implies p(#[trigger] t[j]) by {
            if j < n1 + s.len() {
                assert(t[j] == s[j - n1]);
            } else {
                assert(t[j] == w2[j - n1 - s.len()]);
            }
        }
        assert(t[n1 + a] == s[a]);
        assert(t[n1 + b - 1] == s[b - 1]);
        lemma_trim_by_range(t, p, n1 + a, n1 + b);
        assert(t.subrange(n1 + a, n1 + b) =~= s.subrange(a, b));
    } else {
        assert forall|j: int| 0 <= j < t.len() implies p(#[trigger] t[j]) by {
            if j < n1 {
                assert(t[j] == w1[j]);
            } else if j < n1 + s.len() {
                assert(t[j] == s[j - n1]);
                if j - n1 >= a {
                    assert(b <= j - n1);
                }
            } else {
                assert(t[j] == w2[j - n1 - s.len()]);
            }
        }
        lemma_trim_by_range(t, p, 0, 0);
        assert(t.subrange(0, 0) =~= Seq::<char>::empty());
    }
}

/// Whether `c` is a padding character: an underscore when `underscores`,
/// white space otherwise.
fn is_padding(c: char, underscores: bool) -> (r: bool)
    ensures
        r == (if underscores { underscore()(c) } else { whitespace()(c) }),
{
    if underscores {
        c == '_'
    } else {
        char_is_whitespace(c)
    }
}

/// The range of `v` that trimming the padding characters leaves.
fn trim_bounds(v: &Vec<char>, underscores: bool) -> (r: (usize, usize))
    ensures
        r.0 <= r.1 <= v.len(),
        v@.subrange(r.0 as int, r.1 as int) == trim_by(
            v@,
            if underscores { underscore() } else { whitespace() },
        ),
{
    let ghost p = if underscores { underscore() } else { whitespace() };
    let mut start: usize = 0;
    while start < v.len() && is_padding(v[start], underscores)
        invariant
            start <= v.len(),
            p == (if underscores { underscore() } else { whitespace() }),
            forall|j: int| 0 <= j < start ==> p(#[trigger] v@[j]),
        decreases v.len() - start,
    {
        start += 1;
    }
    let mut end: usize = v.len();
    while end > start && is_padding(v[end - 1], underscores)
        invariant
            start <= end <= v.len(),
            p == (if underscores { underscore() } else { whitespace() }),
            forall|j: int| end <= j < v.len() ==> p(#[trigger] v@[j]),
        decreases end,
    {
        end -= 1;
    }
    proof {
        if start == end {
            assert forall|j: int| 0 <= j < v.len() implies p(#[trigger] v@[j]) by {
                if j >= start {
                    assert(end <= j);
                }
            }
            lemma_trim_by_range(v@, p, 0, 0);
            lemma_trim_by_range(v@, p, start as int, end as int);
        } else {
            lemma_trim_by_range(v@, p, start as int, end as int);
        }
    }
    (start, end)
}

/// The characters of `v` with white space removed from both ends.
pub fn trim_chars(v: &Vec<char>) -> (r: Vec<char>)
    ensures
        r@ == trimmed(v@),
{
    let (lo, hi) = trim_bounds(v, false);
    let mut r: Vec<char> = Vec::new();
    let mut i = lo;
    while i < hi
        invariant
            lo <= i <= hi <= v.len(),
            r@ == v@.subrange(lo as int, i as int),
        decreases hi - i,
    {
        r.push(v[i]);
        assert(v@.subrange(lo as int, i + 1) =~= v@.subrange(lo as int, i as int).push(v@[i as int]));
        i += 1;
    }
    r
}

/// A string with white space removed from both ends, as `str::trim` leaves it.
pub fn trim(s: &str) -> (r: String)
    ensures
        r@ == trimmed(s@),
{
    let v = chars_of(s);
    let (lo, hi) = trim_bounds(&v, false);
    string_from_range(&v, lo, hi)
}

/// The characters of `v` with underscores removed from both ends.
pub fn trim_underscores(v: &Vec<char>) -> (r: String)
    ensures
        r@ == trim_by(v@, underscore()),
{
    let (lo, hi) = trim_bounds(v, true);
    string_from_range(v, lo, hi)
}

/// A word of ASCII lowercase letters.
pub open spec fn lower_word(s: Seq<char>) -> bool {
    forall|i: int| 0 <= i < s.len() ==> 97 <= (#[trigger] s[i] as u32) <= 122
}

/// A non-empty word of lowercase letters is ASCII, is its own lowercase
/// form, and has no white space to trim.
pub proof fn lemma_lower_word(s: Seq<char>)
    requires
        lower_word(s),
        s.len() > 0,
    ensures
        all_ascii(s),
        ascii_lowercase(s) == s,
        trimmed(s) == s,
{
    assert(ascii_lowercase(s) =~= s);
    assert(97 <= (s[0] as u32) <= 122);
    assert(97 <= (s[s.len() - 1] as u32) <= 122);
    lemma_trim_by_range(s, whitespace(), 0, s.len() as int);
    assert(s.subrange(0, s.len() as int) =~= s);
}

/// Nothing is left of an empty string after trimming.
pub proof fn lemma_trimmed_empty()
    ensures
        trimmed(Seq::<char>::empty()) == Seq::<char>::empty(),
{
}

// ---------------------------------------------------------------------------
// Substring search
// ---------------------------------------------------------------------------

/// `pat` occurs in `s` starting at position `k`.
pub open spec fn occurs_at(s: Seq<char>, pat: Seq<char>, k: int) -> bool {
    0 <= k && k + pat.len() <= s.len() && s.subrange(k, k + pat.len()) == pat
}

/// `pat` occurs somewhere in `s`, as `str::contains` finds it.
pub open spec fn contains_chars(s: Seq<char>, pat: Seq<char>) -> bool {
    exists|k: int| occurs_at(s, pat, k)
}

/// Whether `pat` occurs in `s` at position `k`.
fn matches_at(s: &Vec<char>, pat: &Vec<char>, k: usize) -> (r: bool)
    requires
        k + pat.len() <= s.len(),
    ensures
        r == occurs_at(s@, pat@, k as int),
{
    let mut j: usize = 0;
    while j < pat.len()
        invariant
            k + pat.len() <= s.len(),
            j <= pat.len(),
            forall|i: int| 0 <= i < j ==> s@[k + i] == pat@[i],
        decreases pat.len() - j,
    {
        if s[k + j] != pat[j] {
            assert(s@.subrange(k as int, k + pat.len())[j as int] != pat@[j as int]);
            return false;
        }
        j += 1;
    }
    assert(s@.subrange(k as int, k + pat.len()) =~= pat@);
    true
}

/// Whether `pat` occurs somewhere in `s`.
pub fn contains(s: &Vec<char>, pat: &Vec<char>) -> (r: bool)
    ensures
        r == contains_chars(s@, pat@),
{
    if pat.len() > s.len() {
        assert forall|k: int| !occurs_at(s@, pat@, k) by {}
        return false;
    }
    let last = s.len() - pat.len();
    let mut k: usize = 0;
    while k < last
        invariant
            last + pat.len() == s.len(),
            k <= last,
            forall|i: int| 0 <= i < k ==> !occurs_at(s@, pat@, i),
        decreases last - k,
    {
        if matches_at(s, pat, k) {
            return true;
        }
        k += 1;
    }
    if matches_at(s, pat, last) {
        return true;
    }
    assert forall|i: int| !occurs_at(s@, pat@, i) by {
        if 0 <= i < k {
        }
    }
    false
}

// ---------------------------------------------------------------------------
// Decimal numerals
// ---------------------------------------------------------------------------

/// The character of a decimal digit.
pub open spec fn digit_char(d: nat) -> char {
    ((d + 48) as u8) as char
}

/// The decimal numeral of `n`, as `format!("{}", n)` writes it.
pub open spec fn decimal(n: nat) -> Seq<char>
    decreases n,
{
    if n < 10 {
        seq![digit_char(n)]
    } else {
        decimal(n / 10).push(digit_char(n % 10))
    }
}

/// The number a string of decimal digits denotes.
pub open spec fn numeral_value(s: Seq<char>) -> int
    decreases s.len(),
{
    if s.len() == 0 {
        0
    } else {
        numeral_value(s.drop_last()) * 10 + (s.last() as int - 48)
    }
}

/// Reading a numeral back gives the number it was written for.
pub proof fn lemma_decimal_value(n: nat)
    ensures
        numeral_value(decimal(n)) == n,
        decimal(n).len() > 0,
    decreases n,
{
    if n < 10 {
        let s = decimal(n);
        assert(s.drop_last() =~= Seq::<char>::empty());
        assert(((n + 48) as u8) as char as int == n + 48);
        assert(s.last() == digit_char(n));
        assert(numeral_value(s.drop_last()) == 0);
        assert(numeral_value(s) == numeral_value(s.drop_last()) * 10 + (s.last() as int - 48));
    } else {
        lemma_decimal_value(n / 10);
        let s = decimal(n);
        assert(s.drop_last() =~= decimal(n / 10));
        let d = n % 10;
        assert(d < 10);
        assert(((d + 48) as u8) as char as int == d + 48);
        assert(s.last() == digit_char(d));
        assert(numeral_value(s) == numeral_value(s.drop_last()) * 10 + (s.last() as int - 48));
        assert(numeral_value(s) == (n / 10) * 10 + d);
        assert(n == (n / 10) * 10 + n % 10) by (nonlinear_arith);
    }
}

/// Different numbers are written as different numerals.
pub proof fn lemma_decimal_injective(m: nat, n: nat)
    ensures
        decimal(m) == decimal(n) ==> m == n,
{
    lemma_decimal_value(m);
    lemma_decimal_value(n);
}

/// Appends the decimal numeral of `n` to `out`.
fn push_decimal(out: &mut String, n: u64)
    ensures
        final(out)@ == old(out)@ + decimal(n as nat),
    decreases n,
{
    if n >= 10 {
        push_decimal(out, n / 10);
    }
    let d: u8 = (n % 10) as u8;
    let c: char = (d + 48) as char;
    push_char(out, c);
    proof {
        if n < 10 {
            assert(decimal(n as nat) =~= seq![digit_char(n as nat)]);
        } else {
            assert(decimal(n as nat) == decimal((n / 10) as nat).push(digit_char((n % 10) as nat)));
        }
    }
}

/// The decimal numeral of `n`.
pub fn decimal_string(n: u64) -> (r: String)
    ensures
        r@ == decimal(n as nat),
{
    let mut r = String::new();
    push_decimal(&mut r, n);
    assert(Seq::<char>::empty() + decimal(n as nat) =~= decimal(n as nat));
    r
}

// ---------------------------------------------------------------------------
// Lines
// ---------------------------------------------------------------------------

/// The position of the first line feed in `s`, or its length if it has none.
pub open spec fn first_newline(s: Seq<char>) -> int
    decreases s.len(),
{
    if s.len() == 0 {
        0
    } else if s[0] == '\n' {
        0
    } else {
        1 + first_newline(s.drop_first())
    }
}

proof fn lemma_first_newline(s: Seq<char>)
    ensures
        0 <= first_newline(s) <= s.len(),
        forall|j: int| 0 <= j < first_newline(s) ==> #[trigger] s[j] != '\n',
        first_newline(s) < s.len() ==> s[first_newline(s)] == '\n',
    decreases s.len(),
{
    if s.len() > 0 && s[0] != '\n' {
        lemma_first_newline(s.drop_first());
        assert forall|j: int| 0 <= j < first_newline(s) implies #[trigger] s[j] != '\n' by {
            if j > 0 {
                assert(s[j] == s.drop_first()[j - 1]);
            }
        }
    }
}

/// A line without the carriage return that ends it, if any.
pub open spec fn strip_cr(line: Seq<char>) -> Seq<char> {
    if line.len() > 0 && line.last() == '\r' {
        line.drop_last()
    } else {
        line
    }
}

/// The lines of a text, as `str::lines` yields them: split at each line feed,
/// a carriage return before a line feed dropped with it, and a final line
/// ending optional.
pub open spec fn lines_of(s: Seq<char>) -> Seq<Seq<char>>
    decreases s.len(),
{
    if s.len() == 0 {
        Seq::empty()
    } else {
        let k = first_newline(s);
        if k >= s.len() || k < 0 {
            seq![s]
        } else {
            seq![strip_cr(s.take(k))] + lines_of(s.skip(k + 1))
        }
    }
}

proof fn lemma_first_newline_after(cur: Seq<char>, t: Seq<char>)
    requires
        forall|j: int| 0 <= j < cur.len() ==> #[trigger] cur[j] != '\n',
        t.len() > 0,
        t[0] == '\n',
    ensures
        first_newline(cur + t) == cur.len(),
    decreases cur.len(),
{
    if cur.len() > 0 {
        let u = cur + t;
        assert(u[0] == cur[0]);
        let c2 = cur.drop_first();
        assert forall|j: int| 0 <= j < c2.len() implies #[trigger] c2[j] != '\n' by {
            assert(c2[j] == cur[j + 1]);
        }
        lemma_first_newline_after(c2, t);
        assert(u.drop_first() =~= c2 + t);
    } else {
        assert(cur + t =~= t);
    }
}

proof fn lemma_first_newline_none(cur: Seq<char>)
    requires
        forall|j: int| 0 <= j < cur.len() ==> #[trigger] cur[j] != '\n',
    ensures
        first_newline(cur) == cur.len(),
    decreases cur.len(),
{
    if cur.len() > 0 {
        let c2 = cur.drop_first();
        assert forall|j: int| 0 <= j < c2.len() implies #[trigger] c2[j] != '\n' by {
            assert(c2[j] == cur[j + 1]);
        }
        lemma_first_newline_none(c2);
    }
}

/// The views of a vector of strings.
pub open spec fn views(v: Seq<String>) -> Seq<Seq<char>> {
    v.map_values(|s: String| s@)
}

/// The lines of a text.
pub fn lines(v: &Vec<char>) -> (r: Vec<String>)
    ensures
        views(r@) == lines_of(v@),
        r.len() == 0 <==> v.len() == 0,
{
    let mut out: Vec<String> = Vec::new();
    let mut cur: Vec<char> = Vec::new();
    let mut i: usize = 0;
    assert(v@.skip(0) =~= v@);
    assert(cur@ + v@ =~= v@);
    while i < v.len()
        invariant
            i <= v.len(),
            forall|j: int| 0 <= j < cur@.len() ==> #[trigger] cur@[j] != '\n',
            views(out@) + lines_of(cur@ + v@.skip(i as int)) == lines_of(v@),
        decreases v.len() - i,
    {
        let c = v[i];
        let ghost rest = v@.skip(i as int);
        assert(rest[0] == c);
        if c == '\n' {
            proof {
                let u = cur@ + rest;
                lemma_first_newline_after(cur@, rest);
                assert(u.take(cur@.len() as int) =~= cur@);
                assert(u.skip((cur@.len() + 1) as int) =~= v@.skip(i + 1));
                assert(Seq::<char>::empty() + v@.skip(i + 1) =~= v@.skip(i + 1));
            }
            let mut line_end = cur.len();
            if line_end > 0 && cur[line_end - 1] == '\r' {
                line_end = line_end - 1;
            }
            let line = string_from_range(&cur, 0, line_end);
            proof {
                assert(line@ =~= strip_cr(cur@));
            }
            let ghost old_out = out@;
            out.push(line);
            proof {
                assert(views(out@) =~= views(old_out).push(line@));
                assert(views(out@) + lines_of(v@.skip(i + 1)) =~= views(old_out) + (seq![strip_cr(cur@)] + lines_of(v@.skip(i + 1))));
            }
            cur = Vec::new();
            proof {
                assert(cur@ + v@.skip(i + 1) =~= v@.skip(i + 1));
            }
        } else {
            let ghost old_cur = cur@;
            cur.push(c);
            proof {
                assert(cur@ + v@.skip(i + 1) =~= old_cur + rest);
            }
        }
        i += 1;
    }
    proof {
        assert(cur@ + v@.skip(i as int) =~= cur@);
        lemma_first_newline_none(cur@);
    }
    if cur.len() > 0 {
        let line = string_from_chars(&cur);
        let ghost old_out = out@;
        out.push(line);
        proof {
            assert(views(out@) =~= views(old_out).push(line@));
            assert(lines_of(cur@) == seq![cur@]);
        }
    } else {
        proof {
            assert(lines_of(cur@) =~= Seq::<Seq<char>>::empty());
            assert(views(out@) + Seq::<Seq<char>>::empty() =~= views(out@));
        }
    }
    proof {
        if v.len() > 0 {
            lemma_first_newline(v@);
            assert(lines_of(v@).len() > 0);
        }
    }
    out
}

/// Joining a first part before the rest puts one separator between them.
pub proof fn lemma_joined_cons(a: Seq<char>, rest: Seq<Seq<char>>, sep: Seq<char>)
    requires
        rest.len() > 0,
    ensures
        joined(seq![a] + rest, sep) == a + sep + joined(rest, sep),
    decreases rest.len(),
{
    let p = seq![a] + rest;
    assert(p.len() >= 2);
    assert(joined(p, sep) == joined(p.drop_last(), sep) + sep + p.last());
    if rest.len() == 1 {
        assert(p.drop_last() =~= seq![a]);
        assert(p.last() == rest[0]);
        assert(joined(seq![a], sep) == a);
        assert(joined(rest, sep) == rest[0]);
    } else {
        assert(joined(rest, sep) == joined(rest.drop_last(), sep) + sep + rest.last());
        lemma_joined_cons(a, rest.drop_last(), sep);
        assert(p.drop_last() =~= seq![a] + rest.drop_last());
        assert(p.last() == rest.last());
        assert(a + sep + joined(rest.drop_last(), sep) + sep + rest.last() =~= a + sep + (joined(
            rest.drop_last(),
            sep,
        ) + sep + rest.last()));
    }
}

/// The number of line feeds in a text.
pub open spec fn newline_count(s: Seq<char>) -> nat
    decreases s.len(),
{
    if s.len() == 0 {
        0
    } else {
        (if s[0] == '\n' {
            1nat
        } else {
            0nat
        }) + newline_count(s.drop_first())
    }
}

proof fn lemma_newline_count_split(s: Seq<char>)
    ensures
        first_newline(s) < s.len() ==> newline_count(s) == 1 + newline_count(
            s.skip(first_newline(s) + 1),
        ),
        first_newline(s) >= s.len() ==> newline_count(s) == 0,
    decreases s.len(),
{
    if s.len() > 0 && s[0] != '\n' {
        let t = s.drop_first();
        lemma_newline_count_split(t);
        lemma_first_newline(t);
        assert(first_newline(s) == 1 + first_newline(t));
        assert(newline_count(s) == newline_count(t));
        if first_newline(t) < t.len() {
            assert(t.skip(first_newline(t) + 1) =~= s.skip(first_newline(s) + 1));
        }
    } else if s.len() > 0 {
        assert(s.drop_first() =~= s.skip(1));
    }
}

/// A text that does not end with a line feed has one line more than it has
/// line feeds, and, when it holds no carriage return, writing its lines back
/// with a line feed between each two gives the text back.
pub proof fn lemma_lines_cover_text(s: Seq<char>)
    requires
        s.len() > 0,
        s.last() != '\n',
    ensures
        lines_of(s).len() == newline_count(s) + 1,
        (forall|i: int| 0 <= i < s.len() ==> #[trigger] s[i] != '\r') ==> joined(
            lines_of(s),
            seq!['\n'],
        ) == s,
    decreases s.len(),
{
    lemma_first_newline(s);
    lemma_newline_count_split(s);
    let k = first_newline(s);
    if k < s.len() {
        let rest = s.skip(k + 1);
        assert(k != s.len() - 1);
        assert(rest.last() == s.last());
        lemma_lines_cover_text(rest);
        let line = s.take(k);
        assert(lines_of(s) == seq![strip_cr(line)] + lines_of(rest));
        if forall|i: int| 0 <= i < s.len() ==> #[trigger] s[i] != '\r' {
            assert forall|i: int| 0 <= i < rest.len() implies #[trigger] rest[i] != '\r' by {
                assert(rest[i] == s[i + k + 1]);
            }
            if line.len() > 0 {
                assert(line.last() == s[k - 1]);
            }
            assert(strip_cr(line) == line);
            lemma_joined_cons(line, lines_of(rest), seq!['\n']);
            assert(line + seq!['\n'] + rest =~= s);
        }
    } else {
        assert(lines_of(s) == seq![s]);
    }
}

// ---------------------------------------------------------------------------
// Replacing
// ---------------------------------------------------------------------------

/// `s` with every occurrence of `pat` replaced by `with`, scanning from the
/// left and never overlapping, as `str::replace` does for a non-empty pattern.
pub open spec fn replaced(s: Seq<char>, pat: Seq<char>, with: Seq<char>) -> Seq<char>
    decreases s.len(),
{
    if pat.len() == 0 || s.len() == 0 {
        s
    } else if pat.len() <= s.len() && s.take(pat.len() as int) == pat {
        with + replaced(s.skip(pat.len() as int), pat, with)
    } else {
        seq![s[0]] + replaced(s.drop_first(), pat, with)
    }
}

/// A string in which the pattern does not occur is left as it is.
pub proof fn lemma_replaced_absent(s: Seq<char>, pat: Seq<char>, with: Seq<char>)
    requires
        pat.len() > 0,
        !contains_chars(s, pat),
    ensures
        replaced(s, pat, with) == s,
    decreases s.len(),
{
    if s.len() > 0 {
        if pat.len() <= s.len() && s.take(pat.len() as int) == pat {
            assert(s.subrange(0, pat.len() as int) =~= s.take(pat.len() as int));
            assert(occurs_at(s, pat, 0));
        }
        let t = s.drop_first();
        assert forall|k: int| !occurs_at(t, pat, k) by {
            if occurs_at(t, pat, k) {
                assert(s.subrange(k + 1, k + 1 + pat.len()) =~= t.subrange(k, k + pat.len()));
                assert(occurs_at(s, pat, k + 1));
            }
        }
        lemma_replaced_absent(t, pat, with);
        assert(seq![s[0]] + t =~= s);
    }
}

/// Appends all the characters of `w` to `out`.
pub fn push_all(out: &mut Vec<char>, w: &Vec<char>)
    ensures
        final(out)@ == old(out)@ + w@,
{
    let mut j: usize = 0;
    while j < w.len()
        invariant
            j <= w.len(),
            out@ == old(out)@ + w@.take(j as int),
        decreases w.len() - j,
    {
        out.push(w[j]);
        assert(w@.take(j + 1) =~= w@.take(j as int).push(w@[j as int]));
        j += 1;
    }
    assert(w@.take(w.len() as int) =~= w@);
}

/// `s` with every occurrence of the non-empty `pat` replaced by `with`.
pub fn replace_all(s: &Vec<char>, pat: &Vec<char>, with: &Vec<char>) -> (r: Vec<char>)
    requires
        pat.len() > 0,
    ensures
        r@ == replaced(s@, pat@, with@),
{
    let mut out: Vec<char> = Vec::new();
    let mut i: usize = 0;
    assert(s@.skip(0) =~= s@);
    assert(out@ + s@ =~= s@);
    while i < s.len()
        invariant
            pat.len() > 0,
            i <= s.len(),
            out@ + replaced(s@.skip(i as int), pat@, with@) == replaced(s@, pat@, with@),
        decreases s.len() - i,
    {
        let ghost t = s@.skip(i as int);
        let ghost before = out@;
        if pat.len() <= s.len() - i && matches_at(s, pat, i) {
            proof {
                assert(t.take(pat.len() as int) =~= s@.subrange(i as int, i + pat.len()));
                assert(t.skip(pat.len() as int) =~= s@.skip(i + pat.len()));
            }
            push_all(&mut out, with);
            proof {
                assert(out@ + replaced(s@.skip(i + pat.len()), pat@, with@) =~= before + (with@
                    + replaced(t.skip(pat.len() as int), pat@, with@)));
            }
            i += pat.len();
        } else {
            proof {
                if pat.len() <= t.len() && t.take(pat.len() as int) == pat@ {
                    assert(t.take(pat.len() as int) =~= s@.subrange(i as int, i + pat.len()));
                    assert(false);
                }
                assert(t.drop_first() =~= s@.skip(i + 1));
                assert(t[0] == s@[i as int]);
            }
            out.push(s[i]);
            proof {
                assert(out@ + replaced(s@.skip(i + 1), pat@, with@) =~= before + (seq![t[0]]
                    + replaced(t.drop_first(), pat@, with@)));
            }
            i += 1;
        }
    }
    proof {
        assert(s@.skip(i as int).len() == 0);
        assert(out@ + s@.skip(i as int) =~= out@);
    }
    out
}

// ---------------------------------------------------------------------------
// Joining
// ---------------------------------------------------------------------------

/// The parts written one after another with `sep` between each two.
pub open spec fn joined(parts: Seq<Seq<char>>, sep: Seq<char>) -> Seq<char>
    decreases parts.len(),
{
    if parts.len() == 0 {
        Seq::empty()
    } else if parts.len() == 1 {
        parts[0]
    } else {
        joined(parts.drop_last(), sep) + sep + parts.last()
    }
}

} // verus!
