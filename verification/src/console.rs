//! What a line typed at the console asks for.

use crate::text::{range_starts_with, skip_trailing, to_chars, strip_end, CharClass};
use vstd::prelude::*;

verus! {

/// What a line at the console asks for.
#[derive(Clone, Copy, Debug, PartialEq, Eq, Structural)]
pub enum ConsoleCommand {
    /// Show how an instruction is written.
    Help,
    /// Stop listening and end the process.
    Quit,
    /// Anything else: the line is an instruction.
    Instruction,
}

/// `c` with an upper-case ASCII letter made lower-case, as a number.
pub open spec fn folded(c: char) -> u32 {
    if 'A' <= c && c <= 'Z' {
        (c as u32 + 32) as u32
    } else {
        c as u32
    }
}

/// Whether `a` and `b` are the same but for the case of ASCII letters.
pub open spec fn same_ignoring_ascii_case(a: Seq<char>, b: Seq<char>) -> bool {
    a.len() == b.len() && forall|i: int| 0 <= i < a.len() ==> folded(a[i]) == folded(b[i])
}

/// What `line` asks for, whitespace at its end aside: help where it begins
/// with `:help` or `:?`; to quit where it is `quit` or `exit`, in any case of
/// letters; else it is an instruction.
pub open spec fn command_of(line: Seq<char>) -> ConsoleCommand {
    let text = strip_end(line, CharClass::Whitespace);
    if ":help"@.is_prefix_of(text) || ":?"@.is_prefix_of(text) {
        ConsoleCommand::Help
    } else if same_ignoring_ascii_case(text, "quit"@) || same_ignoring_ascii_case(text, "exit"@) {
        ConsoleCommand::Quit
    } else {
        ConsoleCommand::Instruction
    }
}

/// `c` with an upper-case ASCII letter made lower-case, as a number.
fn fold(c: char) -> (r: u32)
    ensures
        r == folded(c),
{
    let n: u32 = c as u32;
    if 'A' <= c && c <= 'Z' {
        n + 32
    } else {
        n
    }
}

/// Whether `chars[..end]` and `word` are the same but for the case of ASCII
/// letters.
fn is_word(chars: &Vec<char>, end: usize, word: &Vec<char>) -> (r: bool)
    requires
        end <= chars.len(),
    ensures
        r == same_ignoring_ascii_case(chars@.subrange(0, end as int), word@),
{
    if end != word.len() {
        return false;
    }
    let ghost text = chars@.subrange(0, end as int);
    let mut i: usize = 0;
    while i < end
        invariant
            i <= end == word.len(),
            end <= chars.len(),
            text == chars@.subrange(0, end as int),
            forall|j: int| 0 <= j < i ==> folded(text[j]) == folded(word@[j]),
        decreases end - i,
    {
        if fold(chars[i]) != fold(word[i]) {
            assert(text[i as int] == chars@[i as int]);
            return false;
        }
        assert(text[i as int] == chars@[i as int]);
        i += 1;
    }
    true
}

/// What a line typed at the console asks for.
pub fn console_command(line: &str) -> (r: ConsoleCommand)
    ensures
        r == command_of(line@),
{
    let chars = to_chars(line);
    let end = skip_trailing(&chars, 0, chars.len(), CharClass::Whitespace);
    assert(chars@.subrange(0, chars.len() as int) == line@);
    assert(chars@.subrange(0, end as int) == strip_end(line@, CharClass::Whitespace));
    let help = to_chars(":help");
    let query = to_chars(":?");
    let quit = to_chars("quit");
    let exit = to_chars("exit");
    if range_starts_with(&chars, 0, end, &help) || range_starts_with(&chars, 0, end, &query) {
        ConsoleCommand::Help
    } else if is_word(&chars, end, &quit) || is_word(&chars, end, &exit) {
        ConsoleCommand::Quit
    } else {
        ConsoleCommand::Instruction
    }
}

} // verus!
