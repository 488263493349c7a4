//! What surrounds a child process: the line that is shown for each line it
//! prints, and the exit code that is reported for it.

use vstd::prelude::*;
use vstd::string::*;

verus! {

/// One of the two streams that a child process writes to.
#[derive(Clone, Copy, Debug, PartialEq, Eq, Structural)]
pub enum Stream {
    Stdout,
    Stderr,
}

impl Stream {
    /// What a line of the stream is shown behind.
    pub open spec fn label(self) -> Seq<char> {
        match self {
            Stream::Stdout => "[stdout] "@,
            Stream::Stderr => "[stderr] "@,
        }
    }
}

/// A line of a child's output as it is shown: the stream's label, then the
/// line as it came.
pub fn log_line(stream: Stream, line: &str) -> (r: String)
    ensures
        r@ == stream.label() + line@,
{
    let mut out = match stream {
        Stream::Stdout => String::from_str("[stdout] "),
        Stream::Stderr => String::from_str("[stderr] "),
    };
    out.append(line);
    out
}

/// The exit code reported for a child process: its own code, or zero where
/// it has none because a signal ended it.
pub fn exit_code_or_default(code: Option<i32>) -> (r: i32)
    ensures
        r == (match code {
            Some(c) => c,
            None => 0i32,
        }),
{
    match code {
        Some(c) => c,
        None => 0,
    }
}

} // verus!
