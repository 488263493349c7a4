//! The catalogue of collected tracks: what is read about each track, which
//! tracks are listed, and in which order.
//!
//! A track is listed under "artist - title" with a link that searches for
//! it. Tracks without a name worth searching for, or without an index, are
//! left out. The list is ordered by name, letter case aside, and no entry is
//! listed twice.

use crate::text::{lowercase, strip_text, to_chars, to_lowercase, trim, CharClass};
use vstd::prelude::*;
use vstd::string::*;
use vstd::utf8::*;

verus! {

/// What is stored about one track.
#[allow(non_snake_case)]
#[derive(Debug)]
pub struct Data {
    pub safeArtist: String,
    pub safeTitle: String,
    pub image: String,
    pub index: String,
}

/// One entry of the list of search links.
#[allow(non_snake_case)]
#[derive(Debug)]
pub struct Demo {
    pub safeArtistTitle: String,
    pub Uri: String,
}

/// A `Demo` as plain text.
pub struct DemoView {
    pub title: Seq<char>,
    pub uri: Seq<char>,
}

impl View for Demo {
    type V = DemoView;

    open spec fn view(&self) -> DemoView {
        DemoView { title: self.safeArtistTitle@, uri: self.Uri@ }
    }
}

/// A compiled regular expression of the `regex` crate.
#[verifier::external_type_specification]
#[verifier::external_body]
pub struct ExRegex(regex::Regex);

/// The error of the `regex` crate.
#[verifier::external_type_specification]
#[verifier::external_body]
pub struct ExRegexError(regex::Error);

/// The pattern that a regular expression was compiled from, as
/// `regex::Regex::as_str` gives it.
pub uninterp spec fn regex_source(re: regex::Regex) -> Seq<char>;

/// Whether `regex::Regex::new` accepts `pattern`.
pub uninterp spec fn pattern_compiles(pattern: Seq<char>) -> bool;

/// `text` without what the regular expression `re` matches in it, as
/// `regex::Regex::replace_all` with an empty replacement gives it.
pub uninterp spec fn matches_removed(re: regex::Regex, text: Seq<char>) -> Seq<char>;

/// The pattern for what is no part of a word.
pub open spec fn nonword_pattern() -> Seq<char> {
    "[^\\w]+"@
}

/// The pattern for ASCII digits.
pub open spec fn digits_pattern() -> Seq<char> {
    "[0-9]+"@
}

/// Calls `regex::Regex::new`. A regular expression that it returns was
/// compiled from `pattern`, and whether one is returned has a name.
///
/// The name is claimed of the two patterns of this module only. The crate
/// refuses a pattern whose compiled form is over a limit in bytes, and the
/// size of that form follows the machine's word size, so that a pattern near
/// the limit may be accepted on one machine and refused on another. The two
/// patterns are far from it.
#[verifier::external_body]
fn compile(pattern: &str) -> (r: Result<regex::Regex, regex::Error>)
    requires
        pattern@ == nonword_pattern() || pattern@ == digits_pattern(),
    ensures
        r is Ok <==> pattern_compiles(pattern@),
        r matches Ok(re) ==> regex_source(re) == pattern@,
{
    regex::Regex::new(pattern)
}

/// Calls `regex::Regex::replace_all` with an empty replacement, which leaves
/// out every match, from the left, without overlap. The contract gives the
/// result a name, by the regular expression itself and the text, and claims
/// nothing else.
#[verifier::external_body]
fn remove_matches(re: &regex::Regex, text: &str) -> (r: String)
    ensures
        r@ == matches_removed(*re, text@),
{
    re.replace_all(text, "").into_owned()
}

/// Whether a byte stands for itself in a percent-encoded text: the ASCII
/// letters and digits, and `-`, `.`, `_`, `~`.
pub open spec fn is_unreserved(b: u8) -> bool {
    ||| 0x30 <= b <= 0x39
    ||| 0x41 <= b <= 0x5A
    ||| 0x61 <= b <= 0x7A
    ||| b == 0x2D
    ||| b == 0x2E
    ||| b == 0x5F
    ||| b == 0x7E
}

/// The digit for `d` in base 16, with capital letters.
pub open spec fn hex_digit(d: u8) -> char {
    if d < 10 {
        (0x30 + d) as char
    } else {
        (0x37 + d) as char
    }
}

/// Bytes percent-encoded: an unreserved byte as it is, any other as `%` and
/// its two digits in base 16.
pub open spec fn percent_encoded_bytes(bytes: Seq<u8>) -> Seq<char>
    decreases bytes.len(),
{
    if bytes.len() == 0 {
        Seq::empty()
    } else {
        let head = if is_unreserved(bytes[0]) {
            seq![bytes[0] as char]
        } else {
            seq!['%', hex_digit(bytes[0] >> 4), hex_digit(bytes[0] & 15)]
        };
        head + percent_encoded_bytes(bytes.drop_first())
    }
}

/// A text percent-encoded: the bytes of its UTF-8 form, percent-encoded.
pub open spec fn percent_encoded(text: Seq<char>) -> Seq<char> {
    percent_encoded_bytes(encode_utf8(text))
}

/// Calls `urlencoding::encode`, which percent-encodes every byte of the
/// text's UTF-8 form except ASCII letters and digits and `-`, `.`, `_`, `~`,
/// with capital letters for the digits above nine.
#[verifier::external_body]
fn url_encode(text: &str) -> (r: String)
    ensures
        r@ == percent_encoded(text@),
{
    urlencoding::encode(text).into_owned()
}

/// The two regular expressions that tell whether a name is worth searching
/// for: one compiled from the pattern for what is no part of a word, one
/// from the pattern for ASCII digits.
pub struct Cleaner {
    nonword: regex::Regex,
    digits: regex::Regex,
}

impl Cleaner {
    /// The two regular expressions are those of the two patterns.
    #[verifier::type_invariant]
    spec fn wf(&self) -> bool {
        &&& regex_source(self.nonword) == nonword_pattern()
        &&& regex_source(self.digits) == digits_pattern()
    }

    /// The patterns that the two regular expressions were compiled from.
    pub closed spec fn sources(&self) -> (Seq<char>, Seq<char>) {
        (regex_source(self.nonword), regex_source(self.digits))
    }

    /// What is left of `text` when everything that the first regular
    /// expression matches is left out, and then everything that the second
    /// matches: first what is no part of a word, then every ASCII digit.
    pub closed spec fn cleaned(&self, text: Seq<char>) -> Seq<char> {
        matches_removed(self.digits, matches_removed(self.nonword, text))
    }

    /// Compiles the two patterns. `None` where the `regex` crate refuses one
    /// of them, and only there.
    pub fn new() -> (r: Option<Cleaner>)
        ensures
            r is Some <==> pattern_compiles(nonword_pattern()) && pattern_compiles(
                digits_pattern(),
            ),
            r matches Some(cleaner) ==> cleaner.sources() == (nonword_pattern(), digits_pattern()),
    {
        match compile("[^\\w]+") {
            Err(_) => None,
            Ok(nonword) => match compile("[0-9]+") {
                Err(_) => None,
                Ok(digits) => Some(Cleaner { nonword, digits }),
            },
        }
    }

    /// Whether `text` holds anything but digits and what is no part of a
    /// word.
    pub fn has_name(&self, text: &str) -> (r: bool)
        ensures
            r == (self.cleaned(text@).len() > 0),
    {
        let first = remove_matches(&self.nonword, text);
        let second = remove_matches(&self.digits, first.as_str());
        !second.as_str().is_empty()
    }
}

/// The name that a track is listed under: artist and title, each trimmed,
/// with ` - ` between them.
pub open spec fn listed_name(artist: Seq<char>, title: Seq<char>) -> Seq<char> {
    trim(artist) + " - "@ + trim(title)
}

/// The link that searches for `name`.
pub open spec fn search_link(name: Seq<char>) -> Seq<char> {
    "https://vk.ru/audio?q="@ + percent_encoded(name)
}

/// Whether a track is listed: it has an artist or a title, `cleaner` finds
/// more in its name than digits and what is no part of a word, and it has an
/// index.
pub open spec fn is_listed(cleaner: Cleaner, data: Data) -> bool {
    &&& trim(data.safeArtist@).len() > 0 || trim(data.safeTitle@).len() > 0
    &&& cleaner.cleaned(listed_name(data.safeArtist@, data.safeTitle@)).len() > 0
    &&& trim(data.index@).len() > 0
}

/// The entry for a track, or `None` where the track is not listed.
pub fn catalog_entry(cleaner: &Cleaner, data: &Data) -> (r: Option<Demo>)
    ensures
        match r {
            Some(entry) => {
                &&& is_listed(*cleaner, *data)
                &&& entry@.title == listed_name(data.safeArtist@, data.safeTitle@)
                &&& entry@.uri == search_link(entry@.title)
            },
            None => !is_listed(*cleaner, *data),
        },
{
    let artist = strip_text(data.safeArtist.as_str(), CharClass::Whitespace);
    let title = strip_text(data.safeTitle.as_str(), CharClass::Whitespace);
    let index = strip_text(data.index.as_str(), CharClass::Whitespace);
    if artist.as_str().is_empty() && title.as_str().is_empty() {
        return None;
    }
    let mut name = artist;
    name.append(" - ");
    name.append(title.as_str());
    if !cleaner.has_name(name.as_str()) || index.as_str().is_empty() {
        return None;
    }
    let mut uri = String::from_str("https://vk.ru/audio?q=");
    uri.append(url_encode(name.as_str()).as_str());
    Some(Demo { safeArtistTitle: name, Uri: uri })
}

/// Whether `a` stands before `b` in the dictionary: at the first place where
/// they differ `a` has the lower character, or `a` ends there and `b` goes
/// on.
pub open spec fn text_lt(a: Seq<char>, b: Seq<char>) -> bool
    decreases a.len(),
{
    if b.len() == 0 {
        false
    } else if a.len() == 0 {
        true
    } else if a[0] != b[0] {
        a[0] < b[0]
    } else {
        text_lt(a.drop_first(), b.drop_first())
    }
}

/// Two texts that begin alike are ordered as what follows the common
/// beginning.
pub proof fn lemma_text_lt_skips_common(a: Seq<char>, b: Seq<char>, k: int)
    requires
        0 <= k <= a.len(),
        k <= b.len(),
        a.take(k) == b.take(k),
    ensures
        text_lt(a, b) == text_lt(a.skip(k), b.skip(k)),
    decreases k,
{
    if k == 0 {
        assert(a.skip(0) == a);
        assert(b.skip(0) == b);
    } else {
        assert(a[0] == a.take(k)[0]);
        assert(b[0] == b.take(k)[0]);
        let x = a.drop_first();
        let y = b.drop_first();
        assert(x.take(k - 1) == a.take(k).drop_first());
        assert(y.take(k - 1) == b.take(k).drop_first());
        lemma_text_lt_skips_common(x, y, k - 1);
        assert(x.skip(k - 1) == a.skip(k));
        assert(y.skip(k - 1) == b.skip(k));
    }
}

/// Whether `a` stands before `b` in the dictionary.
pub fn text_less(a: &Vec<char>, b: &Vec<char>) -> (r: bool)
    ensures
        r == text_lt(a@, b@),
{
    let n = a.len();
    let m = b.len();
    let mut i: usize = 0;
    while i < n && i < m && a[i] == b[i]
        invariant
            i <= n == a.len(),
            i <= m == b.len(),
            a@.take(i as int) == b@.take(i as int),
        decreases n - i,
    {
        i += 1;
        assert(a@.take(i as int) == a@.take(i - 1).push(a@[i - 1]));
        assert(b@.take(i as int) == b@.take(i - 1).push(b@[i - 1]));
    }
    proof {
        lemma_text_lt_skips_common(a@, b@, i as int);
        let x = a@.skip(i as int);
        let y = b@.skip(i as int);
        if i < n && i < m {
            assert(x[0] == a@[i as int]);
            assert(y[0] == b@[i as int]);
        }
    }
    if i >= m {
        false
    } else if i >= n {
        true
    } else {
        a[i] < b[i]
    }
}

/// Whether the entry at `i` belongs before the entry at `j`: its key stands
/// before the other in the dictionary, or the keys are alike and `i` is the
/// earlier of the two.
pub open spec fn comes_before(keys: Seq<Seq<char>>, i: int, j: int) -> bool {
    text_lt(keys[i], keys[j]) || (!text_lt(keys[j], keys[i]) && i < j)
}

/// The dictionary order sets no text before itself.
pub proof fn lemma_text_lt_irreflexive(a: Seq<char>)
    ensures
        !text_lt(a, a),
    decreases a.len(),
{
    if a.len() > 0 {
        lemma_text_lt_irreflexive(a.drop_first());
    }
}

/// Of two texts the dictionary order sets at most one before the other.
pub proof fn lemma_text_lt_asymmetric(a: Seq<char>, b: Seq<char>)
    requires
        text_lt(a, b),
    ensures
        !text_lt(b, a),
    decreases a.len(),
{
    if a.len() > 0 && b.len() > 0 && a[0] == b[0] {
        lemma_text_lt_asymmetric(a.drop_first(), b.drop_first());
    }
}

/// What stands before a text stands before all that the text stands before.
pub proof fn lemma_text_lt_transitive(a: Seq<char>, b: Seq<char>, c: Seq<char>)
    requires
        text_lt(a, b),
        text_lt(b, c),
    ensures
        text_lt(a, c),
    decreases a.len(),
{
    if a.len() > 0 && b.len() > 0 && c.len() > 0 && a[0] == b[0] && b[0] == c[0] {
        lemma_text_lt_transitive(a.drop_first(), b.drop_first(), c.drop_first());
    }
}

/// Of two different texts the dictionary order sets one before the other.
pub proof fn lemma_text_lt_total(a: Seq<char>, b: Seq<char>)
    requires
        a != b,
    ensures
        text_lt(a, b) || text_lt(b, a),
    decreases a.len(),
{
    if a.len() > 0 && b.len() > 0 {
        if a[0] == b[0] {
            let x = a.drop_first();
            let y = b.drop_first();
            if x == y {
                assert(a == seq![a[0]] + x);
                assert(b == seq![b[0]] + y);
            }
            lemma_text_lt_total(x, y);
        }
    } else if a.len() == 0 && b.len() == 0 {
        assert(a == b);
    }
}

/// Whether `order` lists the position `i`.
pub open spec fn lists_position(order: Seq<usize>, i: int) -> bool {
    exists|k: int| 0 <= k < order.len() && #[trigger] order[k] == i
}

/// Whether `order` lists the positions of `keys` below `bound`, each of them
/// once, and each before the one that belongs after it.
pub open spec fn is_ordered_part(keys: Seq<Seq<char>>, order: Seq<usize>, bound: int) -> bool {
    &&& forall|k: int| 0 <= k < order.len() ==> #[trigger] order[k] < bound
    &&& forall|i: int| 0 <= i < bound ==> #[trigger] lists_position(order, i)
    &&& forall|k: int, l: int|
        0 <= k < l < order.len() ==> #[trigger] order[k] != #[trigger] order[l]
    &&& forall|k: int|
        0 <= k < order.len() - 1 ==> comes_before(
            keys,
            #[trigger] order[k] as int,
            order[k + 1] as int,
        )
}

/// Whether `order` lists every position of `keys` once, each before the one
/// that belongs after it.
pub open spec fn is_stable_order(keys: Seq<Seq<char>>, order: Seq<usize>) -> bool {
    order.len() == keys.len() && is_ordered_part(keys, order, keys.len() as int)
}

/// The texts of a list of keys.
pub open spec fn key_texts(keys: Seq<Vec<char>>) -> Seq<Seq<char>> {
    Seq::new(keys.len(), |i: int| keys[i]@)
}

/// What belongs before an entry belongs before all that the entry belongs
/// before.
pub proof fn lemma_comes_before_transitive(keys: Seq<Seq<char>>, i: int, j: int, l: int)
    requires
        comes_before(keys, i, j),
        comes_before(keys, j, l),
    ensures
        comes_before(keys, i, l),
{
    let (a, b, c) = (keys[i], keys[j], keys[l]);
    if text_lt(a, b) {
        if text_lt(b, c) {
            lemma_text_lt_transitive(a, b, c);
        } else {
            if b != c {
                lemma_text_lt_total(b, c);
            }
        }
    } else {
        if a != b {
            lemma_text_lt_total(a, b);
        }
    }
}

/// In a stable order every entry belongs before all that are listed after
/// it, not only before the next.
pub proof fn lemma_stable_order_is_sorted(keys: Seq<Seq<char>>, order: Seq<usize>, k: int, l: int)
    requires
        is_stable_order(keys, order),
        0 <= k < l < order.len(),
    ensures
        comes_before(keys, order[k] as int, order[l] as int),
    decreases l - k,
{
    if l > k + 1 {
        lemma_stable_order_is_sorted(keys, order, k, l - 1);
        assert(comes_before(keys, order[l - 1] as int, order[(l - 1) + 1] as int));
        lemma_comes_before_transitive(keys, order[k] as int, order[l - 1] as int, order[l] as int);
    }
}

/// Two stable orders of the same keys list the same positions up to `n`.
proof fn lemma_stable_orders_agree(
    keys: Seq<Seq<char>>,
    first: Seq<usize>,
    second: Seq<usize>,
    n: int,
)
    requires
        is_stable_order(keys, first),
        is_stable_order(keys, second),
        0 <= n <= keys.len(),
    ensures
        forall|j: int| 0 <= j < n ==> first[j] == second[j],
    decreases n,
{
    if n > 0 {
        lemma_stable_orders_agree(keys, first, second, n - 1);
        let a = first[n - 1];
        let b = second[n - 1];
        if a != b {
            assert(lists_position(second, a as int));
            assert(lists_position(first, b as int));
            let m = choose|m: int| 0 <= m < second.len() && second[m] == a;
            let w = choose|w: int| 0 <= w < first.len() && first[w] == b;
            if m < n - 1 {
                assert(first[m] == second[m]);
                assert(first[m] != first[n - 1]);
            }
            if w < n - 1 {
                assert(first[w] == second[w]);
                assert(second[w] != second[n - 1]);
            }
            lemma_stable_order_is_sorted(keys, second, n - 1, m);
            lemma_stable_order_is_sorted(keys, first, n - 1, w);
            if text_lt(keys[a as int], keys[b as int]) {
                lemma_text_lt_asymmetric(keys[a as int], keys[b as int]);
            }
        }
    }
}

/// The keys allow one stable order only.
pub proof fn lemma_stable_order_is_unique(
    keys: Seq<Seq<char>>,
    first: Seq<usize>,
    second: Seq<usize>,
)
    requires
        is_stable_order(keys, first),
        is_stable_order(keys, second),
    ensures
        first == second,
{
    lemma_stable_orders_agree(keys, first, second, keys.len() as int);
    assert(first =~= second);
}

/// A position that is higher than all those listed can be put into the list
/// behind the last entry whose key does not stand after its own.
proof fn lemma_insert_in_order(keys: Seq<Seq<char>>, before: Seq<usize>, p: int, i: usize)
    requires
        i < keys.len(),
        0 <= p <= before.len(),
        is_ordered_part(keys, before, i as int),
        forall|k: int|
            p <= k < before.len() ==> text_lt(keys[i as int], keys[#[trigger] before[k] as int]),
        p > 0 ==> !text_lt(keys[i as int], keys[before[p - 1] as int]),
    ensures
        is_ordered_part(keys, before.insert(p, i), i + 1),
{
    let after = before.insert(p, i);
    before.insert_ensures(p, i);
    assert forall|k: int| 0 <= k < after.len() implies #[trigger] after[k] == (if k < p {
        before[k]
    } else if k == p {
        i
    } else {
        before[k - 1]
    }) by {
        if k > p {
            assert(after[(k - 1) + 1] == before[k - 1]);
        }
    }
    assert forall|k: int| 0 <= k < after.len() implies #[trigger] after[k] < i + 1 by {
        if k < p {
            assert(before[k] < i);
        } else if k > p {
            assert(before[k - 1] < i);
        }
    }
    assert forall|j: int| 0 <= j < i + 1 implies #[trigger] lists_position(after, j) by {
        if j == i {
            assert(after[p] == j);
        } else {
            assert(lists_position(before, j));
            let k = choose|k: int| 0 <= k < before.len() && before[k] == j;
            if k < p {
                assert(after[k] == j);
            } else {
                assert(after[k + 1] == j);
            }
        }
    }
    assert forall|k: int, l: int| 0 <= k < l < after.len() implies #[trigger] after[k]
        != #[trigger] after[l] by {
        if k < p {
            assert(before[k] < i);
        } else if k > p {
            assert(before[k - 1] < i);
        }
        if l < p {
            assert(before[l] < i);
        } else if l > p {
            assert(before[l - 1] < i);
        }
    }
    assert forall|k: int| 0 <= k < after.len() - 1 implies comes_before(
        keys,
        #[trigger] after[k] as int,
        after[k + 1] as int,
    ) by {
        if k + 1 < p {
            assert(comes_before(keys, before[k] as int, before[k + 1] as int));
        } else if k + 1 == p {
            assert(before[k] < i);
        } else if k == p {
            assert(text_lt(keys[i as int], keys[before[k] as int]));
        } else {
            assert(comes_before(keys, before[k - 1] as int, before[(k - 1) + 1] as int));
        }
    }
}

/// The order in which entries with these keys are listed: by key, and among
/// entries with like keys the earlier first.
pub fn stable_order(keys: &Vec<Vec<char>>) -> (order: Vec<usize>)
    ensures
        is_stable_order(key_texts(keys@), order@),
{
    let ghost texts = key_texts(keys@);
    let n = keys.len();
    let mut order: Vec<usize> = Vec::new();
    let mut i: usize = 0;
    while i < n
        invariant
            i <= n == keys.len(),
            texts == key_texts(keys@),
            order.len() == i,
            is_ordered_part(texts, order@, i as int),
        decreases n - i,
    {
        let mut p: usize = order.len();
        while p > 0 && text_less(&keys[i], &keys[order[p - 1]])
            invariant
                p <= order.len(),
                i < n == keys.len(),
                texts == key_texts(keys@),
                is_ordered_part(texts, order@, i as int),
                forall|k: int|
                    p <= k < order.len() ==> text_lt(
                        texts[i as int],
                        texts[#[trigger] order[k] as int],
                    ),
            decreases p,
        {
            p -= 1;
        }
        proof {
            lemma_insert_in_order(texts, order@, p as int, i);
        }
        order.insert(p, i);
        i += 1;
    }
    order
}

/// The entries of `views` in the order of `order`.
pub open spec fn arranged(views: Seq<DemoView>, order: Seq<usize>) -> Seq<DemoView> {
    Seq::new(order.len(), |k: int| views[order[k] as int])
}

/// `s` without the entries that stand in it before: of equal entries the
/// first stays.
pub open spec fn without_duplicates(s: Seq<DemoView>) -> Seq<DemoView>
    decreases s.len(),
{
    if s.len() == 0 {
        s
    } else {
        let front = without_duplicates(s.drop_last());
        if front.contains(s.last()) {
            front
        } else {
            front.push(s.last())
        }
    }
}

/// Whether `x` stands in `s` at a place before one where `y` stands.
pub open spec fn stands_before(s: Seq<DemoView>, x: DemoView, y: DemoView) -> bool {
    exists|a: int, b: int| 0 <= a < b < s.len() && #[trigger] s[a] == x && #[trigger] s[b] == y
}

/// Leaving out duplicates keeps every entry once: what is left holds no
/// entry twice, holds the entries of the list and no others, and holds them
/// in the order of the list.
pub proof fn lemma_without_duplicates(s: Seq<DemoView>)
    ensures
        without_duplicates(s).no_duplicates(),
        forall|x: DemoView| without_duplicates(s).contains(x) <==> s.contains(x),
        forall|k: int, l: int|
            0 <= k < l < without_duplicates(s).len() ==> stands_before(
                s,
                #[trigger] without_duplicates(s)[k],
                #[trigger] without_duplicates(s)[l],
            ),
    decreases s.len(),
{
    let r = without_duplicates(s);
    if s.len() > 0 {
        let t = s.drop_last();
        let x = s.last();
        let front = without_duplicates(t);
        lemma_without_duplicates(t);
        assert forall|i: int| 0 <= i < front.len() implies r[i] == front[i] by {}
        assert forall|y: DemoView| r.contains(y) implies s.contains(y) by {
            let i = choose|i: int| 0 <= i < r.len() && r[i] == y;
            if i < front.len() {
                assert(front[i] == y);
                assert(front.contains(y));
                assert(t.contains(y));
                let j = choose|j: int| 0 <= j < t.len() && t[j] == y;
                assert(s[j] == y);
            } else {
                assert(s[s.len() - 1] == y);
            }
        }
        assert forall|y: DemoView| s.contains(y) implies r.contains(y) by {
            let j = choose|j: int| 0 <= j < s.len() && s[j] == y;
            if j < s.len() - 1 {
                assert(t[j] == y);
                assert(t.contains(y));
                assert(front.contains(y));
                let i = choose|i: int| 0 <= i < front.len() && front[i] == y;
                assert(r[i] == y);
            } else if front.contains(x) {
                let i = choose|i: int| 0 <= i < front.len() && front[i] == x;
                assert(r[i] == y);
            } else {
                assert(r[front.len() as int] == y);
            }
        }
        assert forall|k: int, l: int| 0 <= k < l < r.len() implies r[k] != r[l] by {
            if l >= front.len() {
                assert(r[l] == x);
                assert(front[k] == r[k]);
                if r[k] == x {
                    assert(front.contains(x));
                }
            } else {
                assert(front[k] != front[l]);
            }
        }
        assert forall|k: int, l: int| 0 <= k < l < r.len() implies stands_before(
            s,
            #[trigger] r[k],
            #[trigger] r[l],
        ) by {
            if l < front.len() {
                assert(stands_before(t, front[k], front[l]));
                let (a, b) = choose|a: int, b: int|
                    0 <= a < b < t.len() && #[trigger] t[a] == front[k] && #[trigger] t[b]
                        == front[l];
                assert(s[a] == r[k] && s[b] == r[l]);
            } else {
                assert(front[k] == r[k]);
                assert(front.contains(r[k]));
                assert(t.contains(r[k]));
                let a = choose|a: int| 0 <= a < t.len() && t[a] == r[k];
                assert(s[a] == r[k] && s[s.len() - 1] == r[l]);
            }
        }
    }
}

/// The entries of a list as plain text.
pub open spec fn demo_views(entries: Seq<Demo>) -> Seq<DemoView> {
    Seq::new(entries.len(), |i: int| entries[i]@)
}

/// The keys that entries are ordered by: their names in lower case.
pub open spec fn sort_keys(entries: Seq<Demo>) -> Seq<Seq<char>> {
    Seq::new(entries.len(), |i: int| lowercase(entries[i].safeArtistTitle@))
}

/// Whether `listed` is the catalogue made of `entries`: the entries ordered
/// by name, letter case aside, those of like names in the order in which
/// they came, and each entry listed once, at the first of its places.
pub open spec fn is_catalog(entries: Seq<Demo>, listed: Seq<Demo>) -> bool {
    exists|order: Seq<usize>| #[trigger]
        is_stable_order(sort_keys(entries), order) && demo_views(listed) == without_duplicates(
            arranged(demo_views(entries), order),
        )
}

/// Whether `listed` holds no entry twice, holds the entries of `entries` and
/// no others, and holds them ordered by name, letter case aside.
pub open spec fn is_sorted_set_of(entries: Seq<Demo>, listed: Seq<Demo>) -> bool {
    &&& demo_views(listed).no_duplicates()
    &&& forall|x: DemoView| demo_views(listed).contains(x) <==> demo_views(entries).contains(x)
    &&& forall|k: int, l: int|
        0 <= k < l < listed.len() ==> !text_lt(
            lowercase((#[trigger] listed[l]).safeArtistTitle@),
            lowercase((#[trigger] listed[k]).safeArtistTitle@),
        )
}

/// A catalogue is deduplicated and ordered: it lists every entry that it is
/// made of, lists none twice, lists nothing else, and no entry stands behind
/// one whose name, in lower case, stands after its own in the dictionary.
pub proof fn lemma_catalog_is_a_sorted_set(entries: Seq<Demo>, listed: Seq<Demo>)
    requires
        is_catalog(entries, listed),
    ensures
        is_sorted_set_of(entries, listed),
{
    let keys = sort_keys(entries);
    let views = demo_views(entries);
    let order = choose|order: Seq<usize>| #[trigger]
        is_stable_order(keys, order) && demo_views(listed) == without_duplicates(
            arranged(views, order),
        );
    let lined = arranged(views, order);
    let r = demo_views(listed);
    lemma_without_duplicates(lined);
    assert forall|x: DemoView| lined.contains(x) implies views.contains(x) by {
        let k = choose|k: int| 0 <= k < lined.len() && lined[k] == x;
        assert(views[order[k] as int] == x);
    }
    assert forall|x: DemoView| views.contains(x) implies lined.contains(x) by {
        let i = choose|i: int| 0 <= i < views.len() && views[i] == x;
        assert(lists_position(order, i));
        let k = choose|k: int| 0 <= k < order.len() && order[k] == i;
        assert(lined[k] == x);
    }
    assert forall|k: int, l: int| 0 <= k < l < listed.len() implies !text_lt(
        lowercase((#[trigger] listed[l]).safeArtistTitle@),
        lowercase((#[trigger] listed[k]).safeArtistTitle@),
    ) by {
        assert(r[k] == listed[k]@ && r[l] == listed[l]@);
        assert(stands_before(lined, r[k], r[l]));
        let (a, b) = choose|a: int, b: int|
            0 <= a < b < lined.len() && #[trigger] lined[a] == r[k] && #[trigger] lined[b] == r[l];
        lemma_stable_order_is_sorted(keys, order, a, b);
        let (i, j) = (order[a] as int, order[b] as int);
        assert(keys[i] == lowercase(listed[k].safeArtistTitle@));
        assert(keys[j] == lowercase(listed[l].safeArtistTitle@));
        if text_lt(keys[i], keys[j]) {
            lemma_text_lt_asymmetric(keys[i], keys[j]);
        }
    }
}

/// Whether `list` holds an entry with the name and the link of `entry`.
fn holds_entry(list: &Vec<Demo>, entry: &Demo) -> (r: bool)
    ensures
        r == demo_views(list@).contains(entry@),
{
    let n = list.len();
    let mut i: usize = 0;
    while i < n
        invariant
            i <= n == list.len(),
            forall|j: int| 0 <= j < i ==> demo_views(list@)[j] != entry@,
        decreases n - i,
    {
        if list[i].safeArtistTitle == entry.safeArtistTitle && list[i].Uri == entry.Uri {
            assert(demo_views(list@)[i as int] == entry@);
            return true;
        }
        assert(demo_views(list@)[i as int] == list[i as int]@);
        i += 1;
    }
    false
}

/// The catalogue made of `entries`: the entries ordered by name, letter case
/// aside, those of like names in the order in which they came, and each
/// entry listed once.
pub fn sorted_catalog(entries: &Vec<Demo>) -> (r: Vec<Demo>)
    ensures
        is_catalog(entries@, r@),
        is_sorted_set_of(entries@, r@),
{
    let n = entries.len();
    let mut keys: Vec<Vec<char>> = Vec::new();
    let mut i: usize = 0;
    while i < n
        invariant
            i <= n == entries.len(),
            keys.len() == i,
            forall|j: int|
                0 <= j < i ==> (#[trigger] keys[j])@ == lowercase(entries[j].safeArtistTitle@),
        decreases n - i,
    {
        let lower = to_lowercase(entries[i].safeArtistTitle.as_str());
        keys.push(to_chars(lower.as_str()));
        i += 1;
    }
    assert(key_texts(keys@) == sort_keys(entries@));
    let order = stable_order(&keys);
    let ghost views = arranged(demo_views(entries@), order@);
    let mut out: Vec<Demo> = Vec::new();
    let mut k: usize = 0;
    assert(views.take(0) == Seq::<DemoView>::empty());
    assert(demo_views(out@) == Seq::<DemoView>::empty());
    while k < n
        invariant
            k <= n == entries.len(),
            order.len() == n,
            is_stable_order(sort_keys(entries@), order@),
            views == arranged(demo_views(entries@), order@),
            demo_views(out@) == without_duplicates(views.take(k as int)),
        decreases n - k,
    {
        let entry = &entries[order[k]];
        let ghost before = demo_views(out@);
        let ghost upto = views.take(k + 1);
        proof {
            assert(upto.drop_last() == views.take(k as int));
            assert(upto.last() == entry@);
        }
        if !holds_entry(&out, entry) {
            out.push(
                Demo { safeArtistTitle: entry.safeArtistTitle.clone(), Uri: entry.Uri.clone() },
            );
            assert(demo_views(out@) == before.push(entry@));
        }
        k += 1;
    }
    assert(views.take(n as int) == views);
    proof {
        lemma_catalog_is_a_sorted_set(entries@, out@);
    }
    out
}

/// The entries allow one catalogue only: two lists that are both the
/// catalogue of the same entries hold the same names and links in the same
/// order.
pub proof fn lemma_catalog_is_unique(entries: Seq<Demo>, first: Seq<Demo>, second: Seq<Demo>)
    requires
        is_catalog(entries, first),
        is_catalog(entries, second),
    ensures
        demo_views(first) == demo_views(second),
{
    let keys = sort_keys(entries);
    let a = choose|order: Seq<usize>| #[trigger]
        is_stable_order(keys, order) && demo_views(first) == without_duplicates(
            arranged(demo_views(entries), order),
        );
    let b = choose|order: Seq<usize>| #[trigger]
        is_stable_order(keys, order) && demo_views(second) == without_duplicates(
            arranged(demo_views(entries), order),
        );
    lemma_stable_order_is_unique(keys, a, b);
}

} // verus!
