//! The commands that put a title and a cover image into an audio file.
//!
//! The tagging tool is tried in two ways, one after the other: first it is
//! asked to copy the streams as they are, then to encode the audio anew. Each
//! way is a list of arguments; the ways share their beginning and differ in
//! their end.

use crate::text::texts;
use vstd::prelude::*;
use vstd::string::*;

verus! {

/// One way of asking the tagging tool.
#[derive(Clone, Copy, Debug, PartialEq, Eq, Structural)]
pub enum TagAttempt {
    /// Copy the streams without encoding them anew.
    StreamCopy,
    /// Write tags of a fixed version and encode the audio anew, at a fixed
    /// bit rate.
    Reencode,
}

impl TagAttempt {
    /// The way that is tried after this one has failed.
    pub open spec fn next(self) -> Option<TagAttempt> {
        match self {
            TagAttempt::StreamCopy => Some(TagAttempt::Reencode),
            TagAttempt::Reencode => None,
        }
    }

    /// The way that is tried first.
    pub fn first() -> (r: TagAttempt)
        ensures
            r == TagAttempt::StreamCopy,
    {
        TagAttempt::StreamCopy
    }

    /// The way that is tried after this one has failed, if there is one.
    pub fn following(&self) -> (r: Option<TagAttempt>)
        ensures
            r == self.next(),
    {
        match self {
            TagAttempt::StreamCopy => Some(TagAttempt::Reencode),
            TagAttempt::Reencode => None,
        }
    }
}

/// The arguments that every attempt begins with: overwrite, the two inputs,
/// the audio of the first and the picture of the second, the title as title
/// and as description, and the picture marked as attached.
pub open spec fn shared_arguments(input: Seq<char>, banner: Seq<char>, title: Seq<char>) -> Seq<
    Seq<char>,
> {
    seq![
        "-y"@,
        "-i"@,
        input,
        "-i"@,
        banner,
        "-map"@,
        "0:a?"@,
        "-map"@,
        "1:v?"@,
        "-metadata"@,
        "title="@ + title,
        "-metadata"@,
        "description="@ + title,
        "-disposition:v:0"@,
        "attached_pic"@,
    ]
}

/// The arguments that an attempt ends with.
pub open spec fn closing_arguments(attempt: TagAttempt, output: Seq<char>) -> Seq<Seq<char>> {
    match attempt {
        TagAttempt::StreamCopy => seq!["-c"@, "copy"@, output],
        TagAttempt::Reencode => seq![
            "-id3v2_version"@,
            "3"@,
            "-c:a"@,
            "libmp3lame"@,
            "-b:a"@,
            "192k"@,
            output,
        ],
    }
}

/// The arguments of one attempt.
pub open spec fn tagging_arguments(
    attempt: TagAttempt,
    input: Seq<char>,
    output: Seq<char>,
    title: Seq<char>,
    banner: Seq<char>,
) -> Seq<Seq<char>> {
    shared_arguments(input, banner, title) + closing_arguments(attempt, output)
}

/// Adds `word` to `list`.
fn push_word(list: &mut Vec<String>, word: &str)
    ensures
        texts(final(list)@) == texts(old(list)@).push(word@),
{
    list.push(String::from_str(word));
    assert(texts(list@) =~= texts(old(list)@).push(word@));
}

/// Adds to `list` one word made of `name` and `value`.
fn push_pair(list: &mut Vec<String>, name: &str, value: &str)
    ensures
        texts(final(list)@) == texts(old(list)@).push(name@ + value@),
{
    let mut word = String::from_str(name);
    word.append(value);
    list.push(word);
    assert(texts(list@) =~= texts(old(list)@).push(name@ + value@));
}

/// The arguments for the tagging tool to read the audio from `input` and the
/// picture from `banner`, and to write to `output` the audio with `title` and
/// the picture, in the way of `attempt`.
pub fn tagging_command(
    attempt: TagAttempt,
    input: &str,
    output: &str,
    title: &str,
    banner: &str,
) -> (r: Vec<String>)
    ensures
        texts(r@) == tagging_arguments(attempt, input@, output@, title@, banner@),
{
    let mut list: Vec<String> = Vec::new();
    assert(texts(list@) =~= Seq::<Seq<char>>::empty());
    push_word(&mut list, "-y");
    push_word(&mut list, "-i");
    push_word(&mut list, input);
    push_word(&mut list, "-i");
    push_word(&mut list, banner);
    push_word(&mut list, "-map");
    push_word(&mut list, "0:a?");
    push_word(&mut list, "-map");
    push_word(&mut list, "1:v?");
    push_word(&mut list, "-metadata");
    push_pair(&mut list, "title=", title);
    push_word(&mut list, "-metadata");
    push_pair(&mut list, "description=", title);
    push_word(&mut list, "-disposition:v:0");
    push_word(&mut list, "attached_pic");
    assert(texts(list@) =~= shared_arguments(input@, banner@, title@));
    match attempt {
        TagAttempt::StreamCopy => {
            push_word(&mut list, "-c");
            push_word(&mut list, "copy");
            push_word(&mut list, output);
        },
        TagAttempt::Reencode => {
            push_word(&mut list, "-id3v2_version");
            push_word(&mut list, "3");
            push_word(&mut list, "-c:a");
            push_word(&mut list, "libmp3lame");
            push_word(&mut list, "-b:a");
            push_word(&mut list, "192k");
            push_word(&mut list, output);
        },
    }
    assert(texts(list@) =~= tagging_arguments(attempt, input@, output@, title@, banner@));
    list
}

} // verus!
