//! The command line of the client: one line of input to one command.

use crate::sftp::error::{SftpError, SftpErrorView};
use crate::sftp::path::chars_of;
use crate::sftp::types::{SftpCommand, SftpCommandView};
use vstd::prelude::*;
use vstd::string::*;

verus! {

/// Whether `c` is white space, as Unicode defines it.
pub open spec fn is_space(c: char) -> bool {
    let code = c as u32;
    ||| 0x09 <= code <= 0x0d
    ||| code == 0x20
    ||| code == 0x85
    ||| code == 0xa0
    ||| code == 0x1680
    ||| 0x2000 <= code <= 0x200a
    ||| code == 0x2028
    ||| code == 0x2029
    ||| code == 0x202f
    ||| code == 0x205f
    ||| code == 0x3000
}

/// The first position from `from` on that holds no white space, or the end of
/// the line.
pub open spec fn skip_spaces(line: Seq<char>, from: int) -> int
    decreases line.len() - from,
{
    if 0 <= from < line.len() && is_space(line[from]) {
        skip_spaces(line, from + 1)
    } else {
        from
    }
}

/// The first position from `from` on that holds white space, or the end of
/// the line.
pub open spec fn skip_word(line: Seq<char>, from: int) -> int
    decreases line.len() - from,
{
    if 0 <= from < line.len() && !is_space(line[from]) {
        skip_word(line, from + 1)
    } else {
        from
    }
}

/// Where the word with the number `k` starts, counting from 0: behind the
/// white space that follows the word before it.
pub open spec fn word_start(line: Seq<char>, k: nat) -> int
    decreases k, 0int,
{
    skip_spaces(
        line,
        if k == 0 {
            0
        } else {
            word_end(line, (k - 1) as nat)
        },
    )
}

/// Where the word with the number `k` ends.
pub open spec fn word_end(line: Seq<char>, k: nat) -> int
    decreases k, 1int,
{
    skip_word(line, word_start(line, k))
}

/// The word with the number `k` of a line, if the line has that many: words
/// are what white space separates.
pub open spec fn word(line: Seq<char>, k: nat) -> Option<Seq<char>> {
    if word_start(line, k) < line.len() {
        Some(line.subrange(word_start(line, k), word_end(line, k)))
    } else {
        None
    }
}

/// The command that a line spells. The first word names it. `ls` and `cd`
/// take a path, which is `.` for `ls` and `/` for `cd` where the line gives
/// none; `get` takes a remote path and may take a local one. Words behind
/// those are not looked at.
pub open spec fn spec_parse_input(line: Seq<char>) -> Result<SftpCommandView, SftpErrorView> {
    match word(line, 0) {
        None => Err(SftpErrorView::InvalidCommand("Empty command"@)),
        Some(name) => if name == "ls"@ {
            Ok(
                SftpCommandView::Ls {
                    path: Some(
                        match word(line, 1) {
                            Some(path) => path,
                            None => "."@,
                        },
                    ),
                },
            )
        } else if name == "cd"@ {
            Ok(
                SftpCommandView::Cd {
                    path: Some(
                        match word(line, 1) {
                            Some(path) => path,
                            None => "/"@,
                        },
                    ),
                },
            )
        } else if name == "get"@ {
            match word(line, 1) {
                Some(remote_path) => Ok(
                    SftpCommandView::Get { remote_path, local_path: word(line, 2) },
                ),
                None => Err(SftpErrorView::InvalidCommand("Missing remote path"@)),
            }
        } else if name == "pwd"@ {
            Ok(SftpCommandView::Pwd)
        } else if name == "bye"@ {
            Ok(SftpCommandView::Bye)
        } else if name == "help"@ {
            Ok(SftpCommandView::Help)
        } else {
            Err(SftpErrorView::UnexpectedCommand)
        },
    }
}

/// Whether `c` is white space.
pub fn is_white_space(c: char) -> (r: bool)
    ensures
        r == is_space(c),
{
    let code = c as u32;
    (0x09 <= code && code <= 0x0d) || code == 0x20 || code == 0x85 || code == 0xa0 || code
        == 0x1680 || (0x2000 <= code && code <= 0x200a) || code == 0x2028 || code == 0x2029
        || code == 0x202f || code == 0x205f || code == 0x3000
}

/// The bounds of the next word of `line` from `from` on: where it starts and
/// where it ends.
fn next_word(line: &Vec<char>, from: usize) -> (bounds: (usize, usize))
    requires
        from <= line.len(),
    ensures
        bounds.0 == skip_spaces(line@, from as int),
        bounds.1 == skip_word(line@, bounds.0 as int),
        from <= bounds.0 <= bounds.1 <= line.len(),
{
    let mut start = from;
    while start < line.len() && is_white_space(line[start])
        invariant
            from <= start <= line.len(),
            skip_spaces(line@, from as int) == skip_spaces(line@, start as int),
        decreases line.len() - start,
    {
        start += 1;
    }
    let mut end = start;
    while end < line.len() && !is_white_space(line[end])
        invariant
            start <= end <= line.len(),
            skip_word(line@, start as int) == skip_word(line@, end as int),
        decreases line.len() - end,
    {
        end += 1;
    }
    (start, end)
}

/// Whether the characters of `line` from `start` to `end` spell `text`.
fn spells(line: &Vec<char>, start: usize, end: usize, text: &str) -> (r: bool)
    requires
        start <= end <= line.len(),
    ensures
        r == (line@.subrange(start as int, end as int) == text@),
{
    let expected = chars_of(text);
    if expected.len() != end - start {
        return false;
    }
    let mut i: usize = 0;
    while i < expected.len()
        invariant
            i <= expected.len() == end - start,
            end <= line.len(),
            expected@ == text@,
            forall|j: int| 0 <= j < i ==> line@[start + j] == expected@[j],
        decreases expected.len() - i,
    {
        if line[start + i] != expected[i] {
            assert(line@.subrange(start as int, end as int)[i as int] != text@[i as int]);
            return false;
        }
        i += 1;
    }
    assert(line@.subrange(start as int, end as int) =~= text@);
    true
}

/// The text of the characters of `input` from `start` to `end`.
fn word_text(input: &str, start: usize, end: usize) -> (text: String)
    requires
        start <= end <= input@.len(),
    ensures
        text@ == input@.subrange(start as int, end as int),
{
    String::from_str(input.substring_char(start, end))
}

/// The front of a command line. It holds no state.
pub struct CommandInterface;

impl CommandInterface {
    /// Reads one line of input as a command.
    pub fn parse_input(input: &str) -> (r: Result<SftpCommand, SftpError>)
        ensures
            match r {
                Ok(command) => spec_parse_input(input@) == Ok::<SftpCommandView, SftpErrorView>(
                    command@,
                ),
                Err(e) => spec_parse_input(input@) == Err::<SftpCommandView, SftpErrorView>(e@),
            },
    {
        let line = chars_of(input);
        let (start0, end0) = next_word(&line, 0);
        if start0 >= line.len() {
            return Err(SftpError::InvalidCommand("Empty command"));
        }
        let (start1, end1) = next_word(&line, end0);
        let (start2, end2) = next_word(&line, end1);
        assert(word_start(line@, 0) == start0 && word_end(line@, 0) == end0);
        assert(word_start(line@, 1) == start1 && word_end(line@, 1) == end1);
        assert(word_start(line@, 2) == start2 && word_end(line@, 2) == end2);
        if spells(&line, start0, end0, "ls") {
            let path = if start1 < line.len() {
                word_text(input, start1, end1)
            } else {
                String::from_str(".")
            };
            Ok(SftpCommand::Ls { path: Some(path) })
        } else if spells(&line, start0, end0, "cd") {
            let path = if start1 < line.len() {
                word_text(input, start1, end1)
            } else {
                String::from_str("/")
            };
            Ok(SftpCommand::Cd { path: Some(path) })
        } else if spells(&line, start0, end0, "get") {
            if start1 >= line.len() {
                return Err(SftpError::InvalidCommand("Missing remote path"));
            }
            let remote_path = word_text(input, start1, end1);
            let local_path = if start2 < line.len() {
                Some(word_text(input, start2, end2))
            } else {
                None
            };
            Ok(SftpCommand::Get { remote_path, local_path })
        } else if spells(&line, start0, end0, "pwd") {
            Ok(SftpCommand::Pwd)
        } else if spells(&line, start0, end0, "bye") {
            Ok(SftpCommand::Bye)
        } else if spells(&line, start0, end0, "help") {
            Ok(SftpCommand::Help)
        } else {
            Err(SftpError::UnexpectedCommand)
        }
    }
}

} // verus!
