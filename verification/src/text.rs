//! Character sequences: classes of characters, trimming, prefixes and
//! suffixes.
//!
//! Text is modelled as `Seq<char>`, the view of `str` and `String`. The
//! executable functions work on a `Vec<char>` and on index ranges into it, so
//! that a caller can cut the answer out of the text it started from.

use vstd::prelude::*;
use vstd::string::*;

verus! {

/// The texts of a list of strings.
pub open spec fn texts(words: Seq<String>) -> Seq<Seq<char>> {
    Seq::new(words.len(), |i: int| words[i]@)
}

/// The text of a string that may be missing.
pub open spec fn text_of(s: Option<&str>) -> Option<Seq<char>> {
    match s {
        Some(t) => Some(t@),
        None => None,
    }
}

/// The characters with the Unicode property `White_Space`.
pub open spec fn is_whitespace(c: char) -> bool {
    let n = c as u32;
    ||| 0x09 <= n <= 0x0D
    ||| n == 0x20
    ||| n == 0x85
    ||| n == 0xA0
    ||| n == 0x1680
    ||| 0x2000 <= n <= 0x200A
    ||| n == 0x2028
    ||| n == 0x2029
    ||| n == 0x202F
    ||| n == 0x205F
    ||| n == 0x3000
}

/// Whether `c` has the Unicode property `White_Space`.
pub fn is_whitespace_char(c: char) -> (r: bool)
    ensures
        r == is_whitespace(c),
{
    let n: u32 = c as u32;
    (0x09 <= n && n <= 0x0D) || n == 0x20 || n == 0x85 || n == 0xA0 || n == 0x1680 || (0x2000 <= n
        && n <= 0x200A) || n == 0x2028 || n == 0x2029 || n == 0x202F || n == 0x205F || n == 0x3000
}

/// A set of characters that can be taken off the ends of a text.
#[derive(Clone, Copy, Debug)]
pub enum CharClass {
    /// The characters with the Unicode property `White_Space`.
    Whitespace,
    /// The double quote.
    Quote,
}

impl CharClass {
    /// Whether `c` belongs to the class.
    pub open spec fn holds(self, c: char) -> bool {
        match self {
            CharClass::Whitespace => is_whitespace(c),
            CharClass::Quote => c == '"',
        }
    }

    /// Whether `c` belongs to the class.
    pub fn contains(&self, c: char) -> (r: bool)
        ensures
            r == self.holds(c),
    {
        match self {
            CharClass::Whitespace => is_whitespace_char(c),
            CharClass::Quote => c == '"',
        }
    }
}

/// How many characters of `class` the text `s` starts with.
pub open spec fn leading(s: Seq<char>, class: CharClass) -> nat
    decreases s.len(),
{
    if s.len() > 0 && class.holds(s[0]) {
        1 + leading(s.drop_first(), class)
    } else {
        0
    }
}

/// How many characters of `class` the text `s` ends with.
pub open spec fn trailing(s: Seq<char>, class: CharClass) -> nat
    decreases s.len(),
{
    if s.len() > 0 && class.holds(s.last()) {
        1 + trailing(s.drop_last(), class)
    } else {
        0
    }
}

/// `s` without the characters of `class` that it starts with.
pub open spec fn strip_start(s: Seq<char>, class: CharClass) -> Seq<char> {
    s.skip(leading(s, class) as int)
}

/// `s` without the characters of `class` that it ends with.
pub open spec fn strip_end(s: Seq<char>, class: CharClass) -> Seq<char> {
    s.take(s.len() - trailing(s, class))
}

/// `s` without the characters of `class` at either end.
pub open spec fn strip(s: Seq<char>, class: CharClass) -> Seq<char> {
    strip_end(strip_start(s, class), class)
}

/// `s` without its leading whitespace.
pub open spec fn trim_start(s: Seq<char>) -> Seq<char> {
    strip_start(s, CharClass::Whitespace)
}

/// `s` without whitespace at either end.
pub open spec fn trim(s: Seq<char>) -> Seq<char> {
    strip(s, CharClass::Whitespace)
}

/// Whether `s` holds characters of `class` only.
pub open spec fn all_of(s: Seq<char>, class: CharClass) -> bool {
    forall|j: int| 0 <= j < s.len() ==> class.holds(#[trigger] s[j])
}

/// Whether `s` neither starts nor ends with a character of `class`.
pub open spec fn is_stripped(s: Seq<char>, class: CharClass) -> bool {
    s.len() > 0 ==> !class.holds(s[0]) && !class.holds(s.last())
}

/// Whether `s` holds whitespace only.
pub open spec fn all_whitespace(s: Seq<char>) -> bool {
    all_of(s, CharClass::Whitespace)
}

/// Whether `s` neither starts nor ends with whitespace.
pub open spec fn is_trimmed(s: Seq<char>) -> bool {
    is_stripped(s, CharClass::Whitespace)
}

/// The leading run of `s` is its longest prefix made of the class.
pub proof fn lemma_leading_bounds(s: Seq<char>, class: CharClass)
    ensures
        leading(s, class) <= s.len(),
        forall|j: int| 0 <= j < leading(s, class) ==> class.holds(#[trigger] s[j]),
        leading(s, class) < s.len() ==> !class.holds(s[leading(s, class) as int]),
    decreases s.len(),
{
    if s.len() > 0 && class.holds(s[0]) {
        let t = s.drop_first();
        lemma_leading_bounds(t, class);
        assert forall|j: int| 0 <= j < leading(s, class) implies class.holds(#[trigger] s[j]) by {
            if j > 0 {
                assert(s[j] == t[j - 1]);
            }
        }
        if leading(s, class) < s.len() {
            assert(s[leading(s, class) as int] == t[leading(t, class) as int]);
        }
    }
}

/// A prefix of length `k` made of the class that cannot be extended is the
/// leading run.
pub proof fn lemma_leading_is(s: Seq<char>, class: CharClass, k: int)
    requires
        0 <= k <= s.len(),
        forall|j: int| 0 <= j < k ==> class.holds(#[trigger] s[j]),
        k < s.len() ==> !class.holds(s[k]),
    ensures
        leading(s, class) == k,
    decreases k,
{
    if k > 0 {
        let t = s.drop_first();
        assert(class.holds(s[0]));
        assert forall|j: int| 0 <= j < k - 1 implies class.holds(#[trigger] t[j]) by {
            assert(t[j] == s[j + 1]);
        }
        if k - 1 < t.len() {
            assert(t[k - 1] == s[k]);
        }
        lemma_leading_is(t, class, k - 1);
    }
}

/// The trailing run of `s` is its longest suffix made of the class.
pub proof fn lemma_trailing_bounds(s: Seq<char>, class: CharClass)
    ensures
        trailing(s, class) <= s.len(),
        forall|j: int| s.len() - trailing(s, class) <= j < s.len() ==> class.holds(#[trigger] s[j]),
        trailing(s, class) < s.len() ==> !class.holds(s[s.len() - trailing(s, class) - 1]),
    decreases s.len(),
{
    if s.len() > 0 && class.holds(s.last()) {
        let t = s.drop_last();
        lemma_trailing_bounds(t, class);
        assert forall|j: int| s.len() - trailing(s, class) <= j < s.len() implies class.holds(
            #[trigger] s[j],
        ) by {
            if j < s.len() - 1 {
                assert(s[j] == t[j]);
            }
        }
        if trailing(s, class) < s.len() {
            assert(s[s.len() - trailing(s, class) - 1] == t[t.len() - trailing(t, class) - 1]);
        }
    }
}

/// A suffix of length `k` made of the class that cannot be extended is the
/// trailing run.
pub proof fn lemma_trailing_is(s: Seq<char>, class: CharClass, k: int)
    requires
        0 <= k <= s.len(),
        forall|j: int| s.len() - k <= j < s.len() ==> class.holds(#[trigger] s[j]),
        k < s.len() ==> !class.holds(s[s.len() - k - 1]),
    ensures
        trailing(s, class) == k,
    decreases k,
{
    if k > 0 {
        let t = s.drop_last();
        assert(class.holds(s[s.len() - 1]));
        assert forall|j: int| t.len() - (k - 1) <= j < t.len() implies class.holds(
            #[trigger] t[j],
        ) by {
            assert(t[j] == s[j]);
        }
        if k - 1 < t.len() {
            assert(t[t.len() - (k - 1) - 1] == s[s.len() - k - 1]);
        }
        lemma_trailing_is(t, class, k - 1);
    }
}

/// What stripping returns neither starts nor ends with a character of the
/// class, and it is the input with such characters taken off both ends.
pub proof fn lemma_strip_bounds(s: Seq<char>, class: CharClass)
    ensures
        is_stripped(strip(s, class), class),
        leading(s, class) + trailing(strip_start(s, class), class) <= s.len(),
        strip(s, class) == s.subrange(
            leading(s, class) as int,
            s.len() - trailing(strip_start(s, class), class),
        ),
        all_of(s.take(leading(s, class) as int), class),
        all_of(s.skip(s.len() - trailing(strip_start(s, class), class)), class),
{
    lemma_leading_bounds(s, class);
    let t = strip_start(s, class);
    lemma_trailing_bounds(t, class);
    let u = strip(s, class);
    assert(u == s.subrange(leading(s, class) as int, s.len() - trailing(t, class)));
    if u.len() > 0 {
        assert(u.last() == t[t.len() - trailing(t, class) - 1]);
        assert(u[0] == s[leading(s, class) as int]);
    }
    let tail = s.skip(s.len() - trailing(t, class));
    assert forall|j: int| 0 <= j < tail.len() implies class.holds(#[trigger] tail[j]) by {
        assert(tail[j] == t[t.len() - trailing(t, class) + j]);
    }
}

/// Stripping takes off the characters of the class around a stripped text,
/// and nothing else.
pub proof fn lemma_strip_padded(
    before: Seq<char>,
    core: Seq<char>,
    after: Seq<char>,
    class: CharClass,
)
    requires
        all_of(before, class),
        all_of(after, class),
        is_stripped(core, class),
    ensures
        strip(before + core + after, class) == core,
{
    let s = before + core + after;
    if core.len() > 0 {
        assert forall|j: int| 0 <= j < before.len() implies class.holds(#[trigger] s[j]) by {
            assert(s[j] == before[j]);
        }
        assert(s[before.len() as int] == core[0]);
        lemma_leading_is(s, class, before.len() as int);
        let t = strip_start(s, class);
        assert(t == core + after);
        assert forall|j: int| t.len() - after.len() <= j < t.len() implies class.holds(
            #[trigger] t[j],
        ) by {
            assert(t[j] == after[j - core.len()]);
        }
        assert(t[t.len() - after.len() - 1] == core.last());
        lemma_trailing_is(t, class, after.len() as int);
        assert(t.take(t.len() - after.len()) == core);
    } else {
        assert forall|j: int| 0 <= j < s.len() implies class.holds(#[trigger] s[j]) by {
            if j < before.len() {
                assert(s[j] == before[j]);
            } else {
                assert(s[j] == after[j - before.len()]);
            }
        }
        lemma_leading_is(s, class, s.len() as int);
        let t = strip_start(s, class);
        assert(t.len() == 0);
        assert(strip(s, class) == core);
    }
}

/// The characters of `s`, in order.
pub fn to_chars(s: &str) -> (v: Vec<char>)
    ensures
        v@ == s@,
{
    let mut v: Vec<char> = Vec::new();
    for c in it: s.chars()
        invariant
            it.seq() == s@,
            v@ == s@.subrange(0, it.index() as int),
    {
        v.push(c);
        assert(v@ == s@.subrange(0, it.index() + 1 as int));
    }
    assert(s@.subrange(0, s@.len() as int) == s@);
    v
}

/// The first position at or after `start` and before `end` that holds no
/// character of `class`, or `end`.
pub fn skip_leading(chars: &Vec<char>, start: usize, end: usize, class: CharClass) -> (r: usize)
    requires
        start <= end <= chars.len(),
    ensures
        r == start + leading(chars@.subrange(start as int, end as int), class),
        start <= r <= end,
{
    let ghost s = chars@.subrange(start as int, end as int);
    let mut i: usize = start;
    while i < end && class.contains(chars[i])
        invariant
            start <= i <= end <= chars.len(),
            s == chars@.subrange(start as int, end as int),
            forall|j: int| 0 <= j < i - start ==> class.holds(#[trigger] s[j]),
        decreases end - i,
    {
        assert(s[i - start] == chars@[i as int]);
        i += 1;
    }
    proof {
        if i < end {
            assert(s[i - start] == chars@[i as int]);
        }
        lemma_leading_is(s, class, i - start);
    }
    i
}

/// The end of the last character before `end` and at or after `start` that
/// is not of `class`, or `start`.
pub fn skip_trailing(chars: &Vec<char>, start: usize, end: usize, class: CharClass) -> (r: usize)
    requires
        start <= end <= chars.len(),
    ensures
        r == end - trailing(chars@.subrange(start as int, end as int), class),
        start <= r <= end,
{
    let ghost s = chars@.subrange(start as int, end as int);
    let mut i: usize = end;
    while i > start && class.contains(chars[i - 1])
        invariant
            start <= i <= end <= chars.len(),
            s == chars@.subrange(start as int, end as int),
            forall|j: int| i - start <= j < s.len() ==> class.holds(#[trigger] s[j]),
        decreases i - start,
    {
        assert(s[i - 1 - start] == chars@[i - 1]);
        i -= 1;
    }
    proof {
        if i > start {
            assert(s[i - 1 - start] == chars@[i - 1]);
        }
        lemma_trailing_is(s, class, end - i);
    }
    i
}

/// The range of `chars[start..end]` that is left when the characters of
/// `class` are taken off both ends.
pub fn strip_range(chars: &Vec<char>, start: usize, end: usize, class: CharClass) -> (r: (
    usize,
    usize,
))
    requires
        start <= end <= chars.len(),
    ensures
        start <= r.0 <= r.1 <= end,
        chars@.subrange(r.0 as int, r.1 as int) == strip(
            chars@.subrange(start as int, end as int),
            class,
        ),
{
    let a = skip_leading(chars, start, end, class);
    let b = skip_trailing(chars, a, end, class);
    proof {
        let s = chars@.subrange(start as int, end as int);
        assert(strip_start(s, class) == chars@.subrange(a as int, end as int));
        assert(strip(s, class) == chars@.subrange(a as int, b as int));
    }
    (a, b)
}

/// Whether `chars[start..end]` begins with `pattern`.
pub fn range_starts_with(chars: &Vec<char>, start: usize, end: usize, pattern: &Vec<char>) -> (r:
    bool)
    requires
        start <= end <= chars.len(),
    ensures
        r == pattern@.is_prefix_of(chars@.subrange(start as int, end as int)),
{
    let ghost s = chars@.subrange(start as int, end as int);
    let n = pattern.len();
    if n > end - start {
        return false;
    }
    let mut i: usize = 0;
    while i < n
        invariant
            i <= n == pattern.len(),
            n <= end - start,
            start <= end <= chars.len(),
            s == chars@.subrange(start as int, end as int),
            forall|j: int| 0 <= j < i ==> pattern@[j] == #[trigger] s[j],
        decreases n - i,
    {
        if pattern[i] != chars[start + i] {
            assert(s[i as int] == chars@[start + i]);
            assert(s.subrange(0, n as int)[i as int] != pattern@[i as int]);
            return false;
        }
        assert(s[i as int] == chars@[start + i]);
        i += 1;
    }
    assert(pattern@ =~= s.subrange(0, n as int));
    true
}

/// Whether `chars[start..end]` ends with `pattern`.
pub fn range_ends_with(chars: &Vec<char>, start: usize, end: usize, pattern: &Vec<char>) -> (r:
    bool)
    requires
        start <= end <= chars.len(),
    ensures
        r == pattern@.is_suffix_of(chars@.subrange(start as int, end as int)),
{
    let n = pattern.len();
    if n > end - start {
        return false;
    }
    let r = range_starts_with(chars, end - n, end, pattern);
    proof {
        let s = chars@.subrange(start as int, end as int);
        assert(s.subrange(s.len() - n, s.len() as int) == chars@.subrange(end - n, end as int));
        assert(chars@.subrange(end - n, end as int).subrange(0, n as int) == chars@.subrange(
            end - n,
            end as int,
        ));
    }
    r
}

/// `s` without the characters of `class` at either end.
pub fn strip_text(s: &str, class: CharClass) -> (r: String)
    ensures
        r@ == strip(s@, class),
{
    let chars = to_chars(s);
    let (a, b) = strip_range(&chars, 0, chars.len(), class);
    assert(chars@.subrange(0, chars.len() as int) == s@);
    String::from_str(s.substring_char(a, b))
}

/// The lower-case form of a text, as `str::to_lowercase` gives it.
pub uninterp spec fn lowercase(s: Seq<char>) -> Seq<char>;

/// Calls `str::to_lowercase`. The contract gives its result a name and
/// claims nothing else: the same text always has the same lower-case form.
#[verifier::external_body]
pub(crate) fn to_lowercase(s: &str) -> (r: String)
    ensures
        r@ == lowercase(s@),
{
    s.to_lowercase()
}

} // verus!
