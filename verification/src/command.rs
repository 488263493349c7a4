//! Reading an instruction.
//!
//! An instruction is one line of text with two directives, parted by a
//! semicolon: `image:` with the address of the cover image, then `extract:`
//! with the arguments for the extractor tool.

use crate::text::{
    all_whitespace, is_trimmed, is_whitespace, leading, lemma_leading_is, lemma_strip_bounds,
    lemma_strip_padded, range_starts_with, skip_leading, strip_range, to_chars, trim, trim_start,
    CharClass,
};
use vstd::prelude::*;
use vstd::string::*;

verus! {

/// The text that opens the first directive.
pub open spec fn image_directive() -> Seq<char> {
    seq!['i', 'm', 'a', 'g', 'e', ':']
}

/// The text that opens the second directive.
pub open spec fn extract_directive() -> Seq<char> {
    seq!['e', 'x', 't', 'r', 'a', 'c', 't', ':']
}

/// The position of the first semicolon in `s`, or the length of `s` where it
/// holds none.
pub open spec fn first_separator(s: Seq<char>) -> nat
    decreases s.len(),
{
    if s.len() == 0 || s[0] == ';' {
        0
    } else {
        1 + first_separator(s.drop_first())
    }
}

/// The parts of `s` between semicolons, each trimmed, without the empty ones.
pub open spec fn segments(s: Seq<char>) -> Seq<Seq<char>>
    decreases s.len(),
{
    let k = first_separator(s);
    let head = trim(s.take(k as int));
    let tail = if k < s.len() {
        segments(s.skip(k as int + 1))
    } else {
        Seq::empty()
    };
    if head.len() == 0 {
        tail
    } else {
        seq![head] + tail
    }
}

/// What a directive holds: the segment without the directive's name and
/// without the whitespace that follows the name.
pub open spec fn directive_content(segment: Seq<char>, directive: Seq<char>) -> Seq<char> {
    trim_start(segment.skip(directive.len() as int))
}

/// What one instruction asks for.
#[derive(Debug)]
pub struct TaggingRequest {
    /// The address of the cover image, as written.
    pub image_url: String,
    /// The arguments for the extractor tool, as one line.
    pub extractor_args: String,
}

/// A `TaggingRequest` as plain text.
pub struct TaggingRequestView {
    pub image_url: Seq<char>,
    pub extractor_args: Seq<char>,
}

impl View for TaggingRequest {
    type V = TaggingRequestView;

    open spec fn view(&self) -> TaggingRequestView {
        TaggingRequestView { image_url: self.image_url@, extractor_args: self.extractor_args@ }
    }
}

/// Why an instruction was not accepted.
#[derive(Debug)]
pub enum InstructionError {
    /// The line does not hold exactly two segments.
    SegmentCount,
    /// The line holds two segments, but the first does not begin with
    /// `image:` or the second does not begin with `extract:`. Both segments
    /// are handed back.
    Directive { first: String, second: String },
}

/// An `InstructionError` as plain text.
pub enum InstructionErrorView {
    SegmentCount,
    Directive { first: Seq<char>, second: Seq<char> },
}

impl View for InstructionError {
    type V = InstructionErrorView;

    open spec fn view(&self) -> InstructionErrorView {
        match self {
            InstructionError::SegmentCount => InstructionErrorView::SegmentCount,
            InstructionError::Directive { first, second } => InstructionErrorView::Directive {
                first: first@,
                second: second@,
            },
        }
    }
}

/// Whether `segs` are an image directive followed by an extract directive.
pub open spec fn well_formed(segs: Seq<Seq<char>>) -> bool {
    &&& segs.len() == 2
    &&& image_directive().is_prefix_of(segs[0])
    &&& extract_directive().is_prefix_of(segs[1])
}

/// The meaning of an instruction.
pub open spec fn parse_spec(raw: Seq<char>) -> Result<TaggingRequestView, InstructionErrorView> {
    let segs = segments(raw);
    if segs.len() != 2 {
        Err(InstructionErrorView::SegmentCount)
    } else if !well_formed(segs) {
        Err(InstructionErrorView::Directive { first: segs[0], second: segs[1] })
    } else {
        Ok(
            TaggingRequestView {
                image_url: directive_content(segs[0], image_directive()),
                extractor_args: directive_content(segs[1], extract_directive()),
            },
        )
    }
}

/// Whether `s` holds no semicolon.
pub open spec fn no_separator(s: Seq<char>) -> bool {
    forall|j: int| 0 <= j < s.len() ==> #[trigger] s[j] != ';'
}

/// An instruction as it is written: the two directives with their contents,
/// a semicolon between them, and whitespace wherever it may stand.
pub open spec fn instruction_text(request: TaggingRequestView, padding: Seq<Seq<char>>) -> Seq<
    char,
>
    recommends
        padding.len() == 6,
{
    padding[0] + image_directive() + padding[1] + request.image_url + padding[2] + seq![';']
        + padding[3] + extract_directive() + padding[4] + request.extractor_args + padding[5]
}

/// The shortest instruction that asks for `request`.
pub open spec fn plain_instruction(request: TaggingRequestView) -> Seq<char> {
    image_directive() + request.image_url + seq![';'] + extract_directive()
        + request.extractor_args
}

/// Whether `request` can be written as an instruction and read back: neither
/// field holds a semicolon, nor whitespace at either end.
pub open spec fn is_expressible(request: TaggingRequestView) -> bool {
    &&& no_separator(request.image_url)
    &&& no_separator(request.extractor_args)
    &&& is_trimmed(request.image_url)
    &&& is_trimmed(request.extractor_args)
}

/// The texts that `ranges` cut out of `s`.
pub open spec fn ranges_text(s: Seq<char>, ranges: Seq<(usize, usize)>) -> Seq<Seq<char>> {
    Seq::new(ranges.len(), |i: int| s.subrange(ranges[i].0 as int, ranges[i].1 as int))
}

/// A stretch without a semicolon that ends at a semicolon, or at the end, is
/// where the first separator lies.
pub proof fn lemma_first_separator_is(s: Seq<char>, k: int)
    requires
        0 <= k <= s.len(),
        forall|j: int| 0 <= j < k ==> #[trigger] s[j] != ';',
        k < s.len() ==> s[k] == ';',
    ensures
        first_separator(s) == k,
    decreases k,
{
    if k > 0 {
        let t = s.drop_first();
        assert(s[0] != ';');
        assert forall|j: int| 0 <= j < k - 1 implies #[trigger] t[j] != ';' by {
            assert(t[j] == s[j + 1]);
        }
        if k - 1 < t.len() {
            assert(t[k - 1] == s[k]);
        }
        lemma_first_separator_is(t, k - 1);
    }
}

/// The first separator lies within the text or at its end, no semicolon
/// stands before it, and one stands at it unless it lies at the end.
pub proof fn lemma_first_separator_bounds(s: Seq<char>)
    ensures
        first_separator(s) <= s.len(),
        forall|j: int| 0 <= j < first_separator(s) ==> #[trigger] s[j] != ';',
        first_separator(s) < s.len() ==> s[first_separator(s) as int] == ';',
    decreases s.len(),
{
    if !(s.len() == 0 || s[0] == ';') {
        let t = s.drop_first();
        lemma_first_separator_bounds(t);
        assert forall|j: int| 0 <= j < first_separator(s) implies #[trigger] s[j] != ';' by {
            if j > 0 {
                assert(s[j] == t[j - 1]);
            }
        }
        if first_separator(s) < s.len() {
            assert(s[first_separator(s) as int] == t[first_separator(t) as int]);
        }
    }
}

/// Every segment holds something, holds no semicolon, and neither starts nor
/// ends with whitespace.
pub proof fn lemma_segments_are_clean(s: Seq<char>)
    ensures
        forall|i: int|
            0 <= i < segments(s).len() ==> {
                let segment = #[trigger] segments(s)[i];
                segment.len() > 0 && no_separator(segment) && is_trimmed(segment)
            },
    decreases s.len(),
{
    lemma_first_separator_bounds(s);
    let k = first_separator(s) as int;
    let part = s.take(k);
    let head = trim(part);
    lemma_strip_bounds(part, CharClass::Whitespace);
    assert forall|j: int| 0 <= j < head.len() implies #[trigger] head[j] != ';' by {
        assert(head[j] == s[leading(part, CharClass::Whitespace) + j]);
    }
    let tail = if k < s.len() {
        segments(s.skip(k + 1))
    } else {
        Seq::<Seq<char>>::empty()
    };
    if k < s.len() {
        lemma_segments_are_clean(s.skip(k + 1));
    }
    assert forall|i: int| 0 <= i < segments(s).len() implies {
        let segment = #[trigger] segments(s)[i];
        segment.len() > 0 && no_separator(segment) && is_trimmed(segment)
    } by {
        if head.len() == 0 {
            assert(segments(s)[i] == tail[i]);
        } else if i == 0 {
            assert(segments(s)[i] == head);
        } else {
            assert(segments(s)[i] == tail[i - 1]);
        }
    }
}

/// A line with one semicolon has the trimmed text before it and the trimmed
/// text after it as its segments, as far as they are not empty.
pub proof fn lemma_segments_of_two(x: Seq<char>, y: Seq<char>)
    requires
        no_separator(x),
        no_separator(y),
    ensures
        segments(x + seq![';'] + y) == (if trim(x).len() == 0 {
            Seq::<Seq<char>>::empty()
        } else {
            seq![trim(x)]
        }) + (if trim(y).len() == 0 {
            Seq::<Seq<char>>::empty()
        } else {
            seq![trim(y)]
        }),
{
    let s = x + seq![';'] + y;
    assert forall|j: int| 0 <= j < x.len() implies #[trigger] s[j] != ';' by {
        assert(s[j] == x[j]);
    }
    assert(s[x.len() as int] == ';');
    lemma_first_separator_is(s, x.len() as int);
    assert(s.take(x.len() as int) == x);
    assert(s.skip(x.len() as int + 1) == y);
    lemma_first_separator_is(y, y.len() as int);
    assert(y.take(y.len() as int) == y);
    let tail = segments(y);
    assert(tail == (if trim(y).len() == 0 {
        Seq::<Seq<char>>::empty()
    } else {
        seq![trim(y)] + Seq::<Seq<char>>::empty()
    }));
    assert(seq![trim(y)] + Seq::<Seq<char>>::empty() == seq![trim(y)]);
    assert(Seq::<Seq<char>>::empty() + tail == tail);
}

/// A directive written with whitespace around its parts is read back as it
/// was meant: the segment begins with the directive's name, and its content is
/// the content that was written.
pub proof fn lemma_directive_round_trip(
    directive: Seq<char>,
    content: Seq<char>,
    before: Seq<char>,
    between: Seq<char>,
    after: Seq<char>,
)
    requires
        directive.len() > 0,
        is_trimmed(directive),
        is_trimmed(content),
        all_whitespace(before),
        all_whitespace(between),
        all_whitespace(after),
    ensures
        trim(before + directive + between + content + after).len() > 0,
        directive.is_prefix_of(trim(before + directive + between + content + after)),
        directive_content(trim(before + directive + between + content + after), directive)
            == content,
{
    let whole = before + directive + between + content + after;
    if content.len() > 0 {
        let core = directive + between + content;
        assert(core[0] == directive[0]);
        assert(core.last() == content.last());
        assert(whole == before + core + after);
        lemma_strip_padded(before, core, after, CharClass::Whitespace);
        let rest = core.skip(directive.len() as int);
        assert(rest == between + content);
        assert forall|j: int| 0 <= j < between.len() implies is_whitespace(#[trigger] rest[j]) by {
            assert(rest[j] == between[j]);
        }
        assert(rest[between.len() as int] == content[0]);
        lemma_leading_is(rest, CharClass::Whitespace, between.len() as int);
        assert(rest.skip(between.len() as int) == content);
        assert(directive == core.subrange(0, directive.len() as int));
    } else {
        let tail = between + content + after;
        assert forall|j: int| 0 <= j < tail.len() implies is_whitespace(#[trigger] tail[j]) by {
            if j < between.len() {
                assert(tail[j] == between[j]);
            } else {
                assert(tail[j] == after[j - between.len()]);
            }
        }
        assert(whole == before + directive + tail);
        lemma_strip_padded(before, directive, tail, CharClass::Whitespace);
        let rest = directive.skip(directive.len() as int);
        assert(rest.len() == 0);
        lemma_leading_is(rest, CharClass::Whitespace, 0);
        assert(trim_start(rest) == content);
        assert(directive == directive.subrange(0, directive.len() as int));
    }
}

/// Reading an instruction gives back the request that was written into it,
/// whatever whitespace was put around its parts: nothing of a directive's
/// content is lost when its name is taken off, and putting the name back
/// before the content gives an instruction with the same meaning.
pub proof fn lemma_parse_round_trip(request: TaggingRequestView, padding: Seq<Seq<char>>)
    requires
        is_expressible(request),
        padding.len() == 6,
        forall|i: int| 0 <= i < 6 ==> all_whitespace(#[trigger] padding[i]),
    ensures
        parse_spec(instruction_text(request, padding)) == Ok::<
            TaggingRequestView,
            InstructionErrorView,
        >(request),
{
    let x = padding[0] + image_directive() + padding[1] + request.image_url + padding[2];
    let y = padding[3] + extract_directive() + padding[4] + request.extractor_args + padding[5];
    assert(all_whitespace(padding[0]) && all_whitespace(padding[1]) && all_whitespace(padding[2]));
    assert(all_whitespace(padding[3]) && all_whitespace(padding[4]) && all_whitespace(padding[5]));
    assert(!is_whitespace(';'));
    assert(no_separator(x)) by {
        assert forall|j: int| 0 <= j < x.len() implies #[trigger] x[j] != ';' by {
            let a = padding[0].len();
            let b = a + image_directive().len();
            let c = b + padding[1].len();
            let d = c + request.image_url.len();
            if j < a {
                assert(x[j] == padding[0][j]);
            } else if j < b {
                assert(x[j] == image_directive()[j - a]);
            } else if j < c {
                assert(x[j] == padding[1][j - b]);
            } else if j < d {
                assert(x[j] == request.image_url[j - c]);
            } else {
                assert(x[j] == padding[2][j - d]);
            }
        }
    }
    assert(no_separator(y)) by {
        assert forall|j: int| 0 <= j < y.len() implies #[trigger] y[j] != ';' by {
            let a = padding[3].len();
            let b = a + extract_directive().len();
            let c = b + padding[4].len();
            let d = c + request.extractor_args.len();
            if j < a {
                assert(y[j] == padding[3][j]);
            } else if j < b {
                assert(y[j] == extract_directive()[j - a]);
            } else if j < c {
                assert(y[j] == padding[4][j - b]);
            } else if j < d {
                assert(y[j] == request.extractor_args[j - c]);
            } else {
                assert(y[j] == padding[5][j - d]);
            }
        }
    }
    assert(instruction_text(request, padding) == x + seq![';'] + y);
    lemma_segments_of_two(x, y);
    lemma_directive_round_trip(
        image_directive(),
        request.image_url,
        padding[0],
        padding[1],
        padding[2],
    );
    lemma_directive_round_trip(
        extract_directive(),
        request.extractor_args,
        padding[3],
        padding[4],
        padding[5],
    );
    let segs = segments(x + seq![';'] + y);
    assert(segs == seq![trim(x)] + seq![trim(y)]);
    assert(segs.len() == 2);
    assert(segs[0] == trim(x));
    assert(segs[1] == trim(y));
}

/// The plain way of writing a request is read back as that request.
pub proof fn lemma_plain_round_trip(request: TaggingRequestView)
    requires
        is_expressible(request),
    ensures
        parse_spec(plain_instruction(request)) == Ok::<TaggingRequestView, InstructionErrorView>(
            request,
        ),
{
    let none = Seq::<char>::empty();
    let padding = seq![none, none, none, none, none, none];
    assert forall|i: int| 0 <= i < 6 implies all_whitespace(#[trigger] padding[i]) by {}
    lemma_parse_round_trip(request, padding);
    assert(instruction_text(request, padding) == plain_instruction(request));
}

/// Where the segments of `chars` lie, in order.
pub fn segment_ranges(chars: &Vec<char>) -> (r: Vec<(usize, usize)>)
    ensures
        ranges_text(chars@, r@) == segments(chars@),
        forall|j: int| 0 <= j < r.len() ==> (#[trigger] r[j]).0 < r[j].1 <= chars.len(),
{
    let n = chars.len();
    let ghost s = chars@;
    let mut out: Vec<(usize, usize)> = Vec::new();
    let mut start: usize = 0;
    let mut done = false;
    assert(s.skip(0) == s);
    assert(ranges_text(s, out@) + segments(s) == segments(s));
    while !done
        invariant
            s == chars@,
            n == chars.len(),
            start <= n,
            forall|j: int| 0 <= j < out.len() ==> (#[trigger] out[j]).0 < out[j].1 <= n,
            segments(s) == ranges_text(s, out@) + (if done {
                Seq::<Seq<char>>::empty()
            } else {
                segments(s.skip(start as int))
            }),
        decreases n - start + (if done { 0int } else { 1int }),
    {
        let ghost rest = s.skip(start as int);
        let mut i: usize = start;
        while i < n && chars[i] != ';'
            invariant
                s == chars@,
                n == chars.len(),
                start <= i <= n,
                rest == s.skip(start as int),
                forall|j: int| 0 <= j < i - start ==> #[trigger] rest[j] != ';',
            decreases n - i,
        {
            i += 1;
        }
        let (a, b) = strip_range(chars, start, i, CharClass::Whitespace);
        let ghost before = out@;
        proof {
            lemma_first_separator_is(rest, i - start);
            assert(rest.take(i - start) == s.subrange(start as int, i as int));
            if i < n {
                assert(rest.skip(i - start + 1) == s.skip(i + 1));
            }
        }
        if a < b {
            out.push((a, b));
            assert(ranges_text(s, out@) == ranges_text(s, before) + seq![
                s.subrange(a as int, b as int),
            ]);
        }
        if i < n {
            start = i + 1;
        } else {
            done = true;
        }
        proof {
            let tail = if i < n {
                segments(s.skip(i + 1))
            } else {
                Seq::<Seq<char>>::empty()
            };
            if a < b {
                assert(segments(rest) == seq![s.subrange(a as int, b as int)] + tail);
                assert(ranges_text(s, before) + (seq![s.subrange(a as int, b as int)] + tail) == (
                ranges_text(s, before) + seq![s.subrange(a as int, b as int)]) + tail);
            } else {
                assert(segments(rest) == tail);
            }
        }
    }
    assert(ranges_text(s, out@) + Seq::<Seq<char>>::empty() == ranges_text(s, out@));
    out
}

/// Reads an instruction.
///
/// The line is cut at semicolons, the parts are trimmed and the empty ones
/// dropped. Exactly two must be left, the first beginning with `image:` and
/// the second with `extract:`; what follows each name, without leading
/// whitespace, is the request.
pub fn parse_instruction(raw: &str) -> (r: Result<TaggingRequest, InstructionError>)
    ensures
        match r {
            Ok(request) => parse_spec(raw@) == Ok::<TaggingRequestView, InstructionErrorView>(
                request@,
            ),
            Err(e) => parse_spec(raw@) == Err::<TaggingRequestView, InstructionErrorView>(e@),
        },
        segments(raw@).len() != 2 <==> r == Err::<TaggingRequest, InstructionError>(
            InstructionError::SegmentCount,
        ),
{
    let chars = to_chars(raw);
    let ranges = segment_ranges(&chars);
    let ghost segs = segments(raw@);
    assert(ranges_text(chars@, ranges@).len() == ranges.len());
    if ranges.len() != 2 {
        return Err(InstructionError::SegmentCount);
    }
    let (a0, b0) = ranges[0];
    let (a1, b1) = ranges[1];
    assert(segs[0] == ranges_text(chars@, ranges@)[0]);
    assert(segs[1] == ranges_text(chars@, ranges@)[1]);
    let image = to_chars("image:");
    let extract = to_chars("extract:");
    proof {
        reveal_strlit("image:");
        reveal_strlit("extract:");
        assert(image@ =~= image_directive());
        assert(extract@ =~= extract_directive());
    }
    if range_starts_with(&chars, a0, b0, &image) && range_starts_with(&chars, a1, b1, &extract) {
        let c0 = skip_leading(&chars, a0 + 6, b0, CharClass::Whitespace);
        let c1 = skip_leading(&chars, a1 + 8, b1, CharClass::Whitespace);
        proof {
            assert(segs[0].skip(6) == chars@.subrange(a0 + 6, b0 as int));
            assert(segs[1].skip(8) == chars@.subrange(a1 + 8, b1 as int));
            assert(directive_content(segs[0], image_directive()) == chars@.subrange(
                c0 as int,
                b0 as int,
            ));
            assert(directive_content(segs[1], extract_directive()) == chars@.subrange(
                c1 as int,
                b1 as int,
            ));
        }
        Ok(
            TaggingRequest {
                image_url: String::from_str(raw.substring_char(c0, b0)),
                extractor_args: String::from_str(raw.substring_char(c1, b1)),
            },
        )
    } else {
        Err(
            InstructionError::Directive {
                first: String::from_str(raw.substring_char(a0, b0)),
                second: String::from_str(raw.substring_char(a1, b1)),
            },
        )
    }
}

impl TaggingRequest {
    /// The request written as an instruction, in the plain way.
    pub fn to_instruction(&self) -> (r: String)
        ensures
            r@ == plain_instruction(self@),
    {
        proof {
            reveal_strlit("image:");
            reveal_strlit("extract:");
            reveal_strlit(";");
            assert("image:"@ =~= image_directive());
            assert("extract:"@ =~= extract_directive());
            assert(";"@ =~= seq![';']);
        }
        let mut out = String::from_str("image:");
        out.append(self.image_url.as_str());
        out.append(";");
        out.append("extract:");
        out.append(self.extractor_args.as_str());
        out
    }
}

} // verus!
