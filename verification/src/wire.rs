//! The line transport's framing: how a command becomes a line on the wire
//! and how a received line becomes a reply.

use crate::text::to_chars;
use vstd::prelude::*;
use vstd::string::*;

verus! {

/// The line terminator of the protocol: carriage return, then line feed.
pub open spec fn terminator() -> Seq<char> {
    seq!['\r', '\n']
}

/// A command as it goes on the wire: the command, then the terminator.
pub open spec fn framed(command: Seq<char>) -> Seq<char> {
    command + terminator()
}

/// Whether `line` ends with the terminator.
pub open spec fn is_terminated(line: Seq<char>) -> bool {
    line.len() >= 2 && line[line.len() - 2] == '\r' && line[line.len() - 1] == '\n'
}

/// A received line without the terminators that end it.
pub open spec fn stripped(line: Seq<char>) -> Seq<char>
    decreases line.len(),
{
    if is_terminated(line) {
        stripped(line.take(line.len() - 2))
    } else {
        line
    }
}

/// Frames `command` for sending. The command is taken verbatim: nothing in
/// it is escaped.
pub fn frame(command: &str) -> (line: String)
    ensures
        line@ == framed(command@),
{
    proof {
        reveal_strlit("\r\n");
        assert("\r\n"@ =~= terminator());
    }
    let mut line = String::from_str(command);
    line.append("\r\n");
    line
}

/// Removes the line terminator from the end of a received line and returns
/// what is left, unchanged. A line that ends with several terminators loses
/// all of them; one that ends with none stays as it is.
pub fn strip_terminator(raw: &str) -> (line: String)
    ensures
        line@ == stripped(raw@),
{
    let chars = to_chars(raw);
    let mut end: usize = chars.len();
    proof {
        assert(chars@.take(end as int) =~= chars@);
    }
    while end >= 2 && chars[end - 2] == '\r' && chars[end - 1] == '\n'
        invariant
            end <= chars.len(),
            stripped(chars@) == stripped(chars@.take(end as int)),
        decreases end,
    {
        proof {
            let kept = chars@.take(end as int);
            assert(is_terminated(kept));
            assert(kept.take(kept.len() - 2) =~= chars@.take(end - 2));
        }
        end -= 2;
    }
    proof {
        assert(!is_terminated(chars@.take(end as int)));
        assert(raw@.subrange(0, end as int) =~= chars@.take(end as int));
    }
    String::from_str(raw.substring_char(0, end))
}

/// A framed command, read back as a line, is the command again, provided the
/// command does not itself end with the terminator.
pub proof fn lemma_strip_framed(command: Seq<char>)
    requires
        !is_terminated(command),
    ensures
        stripped(framed(command)) == command,
{
    let line = framed(command);
    assert(is_terminated(line));
    assert(line.take(line.len() - 2) =~= command);
    assert(stripped(line) == stripped(command));
}

} // verus!
