//! The words of a command line.
//!
//! A line of arguments is cut into words by the rules of the POSIX shell, and
//! a word that begins with `~` is taken to lie below the home directory. Both
//! are the work of outside crates; what the library does with the words is
//! proved here.

use crate::text::{strip_range, text_of, texts, to_chars, trim, CharClass};
use vstd::prelude::*;
use vstd::string::*;

verus! {

/// The error of `shell_words::split`.
#[verifier::external_type_specification]
#[verifier::external_body]
pub struct ExShellParseError(shell_words::ParseError);

/// The words that `shell_words::split` cuts a line into, or `None` where it
/// finds a quote that is not closed.
pub uninterp spec fn shell_split(line: Seq<char>) -> Option<Seq<Seq<char>>>;

/// Calls `shell_words::split`, which reads the line by the quoting rules of
/// the POSIX shell. The contract gives its result a name and claims nothing
/// else: the same line always gives the same words, or the same failure.
#[verifier::external_body]
fn split_line(line: &str) -> (r: Result<Vec<String>, shell_words::ParseError>)
    ensures
        match r {
            Ok(words) => shell_split(line@) == Some(texts(words@)),
            Err(_) => shell_split(line@) is None,
        },
{
    shell_words::split(line)
}

/// Whether `input` is `~` alone or begins with `~/`.
pub open spec fn names_home(input: Seq<char>) -> bool {
    input.len() >= 1 && input[0] == '~' && (input.len() == 1 || input[1] == '/')
}

/// `input` with a leading `~` replaced by the home directory, where `input`
/// names the home directory and one is known; else `input`.
pub open spec fn tilde_expansion(input: Seq<char>, home: Option<Seq<char>>) -> Seq<char> {
    if names_home(input) && home is Some {
        home->0 + input.skip(1)
    } else {
        input
    }
}

/// Whether `out` is `input` with the home directory put in.
///
/// A word that begins with `~\` is read as naming the home directory on
/// Windows and as an ordinary word elsewhere; both readings are admitted.
pub open spec fn is_tilde_expansion(
    input: Seq<char>,
    home: Option<Seq<char>>,
    out: Seq<char>,
) -> bool {
    ||| out == tilde_expansion(input, home)
    ||| input.len() >= 2 && input[0] == '~' && input[1] == '\\' && home is Some && out == home->0
        + input.skip(1)
}

/// Calls `shellexpand::tilde_with_context` with `home` as the home directory.
/// By its source the result is the input, but for an input that is `~` alone
/// or begins with `~/`, and on Windows with `~\`, when a home directory is
/// given: then the `~` is replaced by the home directory.
#[verifier::external_body]
fn expand_tilde(input: &str, home: Option<&str>) -> (r: String)
    ensures
        is_tilde_expansion(input@, text_of(home), r@),
{
    shellexpand::tilde_with_context(input, move || home).into_owned()
}

/// A word that does not begin with `~\` has one expansion only.
pub proof fn lemma_tilde_expansion_exact(input: Seq<char>, home: Option<Seq<char>>, out: Seq<char>)
    requires
        is_tilde_expansion(input, home, out),
        !(input.len() >= 2 && input[0] == '~' && input[1] == '\\'),
    ensures
        out == tilde_expansion(input, home),
{
}

/// Whether `out` holds the words of `tokens`, each with the home directory
/// put in.
pub open spec fn are_tilde_expansions(
    tokens: Seq<Seq<char>>,
    home: Option<Seq<char>>,
    out: Seq<Seq<char>>,
) -> bool {
    &&& out.len() == tokens.len()
    &&& forall|i: int|
        0 <= i < tokens.len() ==> is_tilde_expansion(tokens[i], home, #[trigger] out[i])
}

/// The flag that announces the output file.
pub open spec fn output_flag() -> Seq<char> {
    seq!['-', 'o']
}

/// The word that follows the first `-o` which has a word after it.
pub open spec fn output_token(tokens: Seq<Seq<char>>) -> Option<Seq<char>>
    decreases tokens.len(),
{
    if tokens.len() < 2 {
        None
    } else if tokens[0] == output_flag() {
        Some(tokens[1])
    } else {
        output_token(tokens.drop_first())
    }
}

/// Whether `found` is the output path that the words `tokens` declare.
pub open spec fn is_output_path(
    tokens: Seq<Seq<char>>,
    home: Option<Seq<char>>,
    found: Option<Seq<char>>,
) -> bool {
    match output_token(tokens) {
        Some(word) => found is Some && is_tilde_expansion(word, home, found->0),
        None => found is None,
    }
}

/// Whether `found` is the output path that the argument line declares.
pub open spec fn is_declared_output(
    line: Seq<char>,
    home: Option<Seq<char>>,
    found: Option<Seq<char>>,
) -> bool {
    match shell_split(line) {
        Some(tokens) => is_output_path(tokens, home, found),
        None => found is None,
    }
}

/// The path that follows the first `-o` among `words`, below the home
/// directory where it begins with `~`; `None` where no `-o` has a word after
/// it.
pub fn find_output_path(words: &Vec<String>, home: Option<&str>) -> (r: Option<String>)
    ensures
        is_output_path(
            texts(words@),
            text_of(home),
            match r {
                Some(p) => Some(p@),
                None => None,
            },
        ),
{
    let ghost tokens = texts(words@);
    let flag = String::from_str("-o");
    proof {
        reveal_strlit("-o");
        assert(flag@ =~= output_flag());
    }
    let n = words.len();
    if n < 2 {
        return None;
    }
    let mut i: usize = 0;
    assert(tokens.skip(0) == tokens);
    while i < n - 1
        invariant
            n == words.len(),
            n >= 2,
            i <= n - 1,
            tokens == texts(words@),
            flag@ == output_flag(),
            output_token(tokens) == output_token(tokens.skip(i as int)),
        decreases n - i,
    {
        let ghost rest = tokens.skip(i as int);
        assert(rest[0] == words[i as int]@);
        assert(rest[1] == words[i + 1]@);
        if words[i] == flag {
            let found = expand_tilde(words[i + 1].as_str(), home);
            return Some(found);
        }
        assert(rest.drop_first() == tokens.skip(i + 1));
        i += 1;
    }
    None
}

/// The output file that a line of extractor arguments declares: the word
/// after the first `-o`, below the home directory where it begins with `~`.
/// `None` where the line cannot be cut into words or declares no output.
pub fn extract_output_path(arg_line: &str, home: Option<&str>) -> (r: Option<String>)
    ensures
        is_declared_output(
            arg_line@,
            text_of(home),
            match r {
                Some(p) => Some(p@),
                None => None,
            },
        ),
{
    match split_line(arg_line) {
        Ok(words) => find_output_path(&words, home),
        Err(_) => None,
    }
}

/// A line of arguments could not be cut into words: a quote is not closed.
#[derive(Debug)]
pub struct ArgumentParseError {}

/// The words of `words`, each with the home directory put in.
pub fn expand_words(words: &Vec<String>, home: Option<&str>) -> (r: Vec<String>)
    ensures
        are_tilde_expansions(texts(words@), text_of(home), texts(r@)),
{
    let mut out: Vec<String> = Vec::new();
    let n = words.len();
    let mut i: usize = 0;
    while i < n
        invariant
            n == words.len(),
            i <= n,
            out.len() == i,
            forall|j: int|
                0 <= j < i ==> is_tilde_expansion(words[j]@, text_of(home), #[trigger] out[j]@),
        decreases n - i,
    {
        let word = expand_tilde(words[i].as_str(), home);
        out.push(word);
        i += 1;
    }
    assert forall|j: int| 0 <= j < n implies is_tilde_expansion(
        texts(words@)[j],
        text_of(home),
        #[trigger] texts(out@)[j],
    ) by {
        assert(is_tilde_expansion(words[j]@, text_of(home), out[j]@));
    }
    out
}

/// Whether `result` is what a line of arguments stands for: no words where
/// the line is blank, else its words with the home directory put in, and a
/// failure where the line cannot be cut into words.
pub open spec fn are_command_arguments(
    line: Seq<char>,
    home: Option<Seq<char>>,
    result: Option<Seq<Seq<char>>>,
) -> bool {
    if trim(line).len() == 0 {
        result == Some(Seq::<Seq<char>>::empty())
    } else {
        match shell_split(line) {
            Some(tokens) => result is Some && are_tilde_expansions(tokens, home, result->0),
            None => result is None,
        }
    }
}

/// The arguments that a child process is started with, from one line of
/// text: the line is cut into words by the rules of the shell, and `~` at the
/// start of a word becomes the home directory. A blank line gives no
/// arguments; a line with a quote that is not closed is refused.
pub fn command_arguments(line: &str, home: Option<&str>) -> (r: Result<
    Vec<String>,
    ArgumentParseError,
>)
    ensures
        are_command_arguments(
            line@,
            text_of(home),
            match r {
                Ok(words) => Some(texts(words@)),
                Err(_) => None,
            },
        ),
{
    let chars = to_chars(line);
    let (a, b) = strip_range(&chars, 0, chars.len(), CharClass::Whitespace);
    assert(chars@.subrange(0, chars.len() as int) == line@);
    if a == b {
        let none: Vec<String> = Vec::new();
        assert(texts(none@) == Seq::<Seq<char>>::empty());
        return Ok(none);
    }
    match split_line(line) {
        Ok(words) => Ok(expand_words(&words, home)),
        Err(_) => Err(ArgumentParseError {}),
    }
}

} // verus!
