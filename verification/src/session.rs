//! The decisions of a client session, one received byte at a time.
//!
//! Bytes are gathered into a line until a `\r` or a `\n`; either byte ends a
//! line, and a terminator that comes while the line is still empty (a blank
//! line, such as the second half of a `\r\n` or `\n\r` pair) is ignored. So
//! LF, CR and CRLF senders all work the same. A line longer than the 32-byte
//! line buffer is not parsed: it is answered `ERR line too long`. Every
//! line gets exactly one reply line: `OK` once the command has been applied,
//! or `ERR <reason>`.
use crate::buffers::{line_buffer_chars, LineBuffer};
use crate::protocol::{
    char_utf8_len, parse_line, reason_text, spec_parse_line, utf8_len, Command, CommandView, ProtocolError,
};
use vstd::prelude::*;

verus! {

/// Capacity of the line buffer, in bytes of UTF-8.
pub open spec fn line_capacity() -> nat {
    32
}

/// How reading a line ended.
#[derive(Clone, Copy, PartialEq, Eq, Structural, Debug)]
pub enum Line {
    /// A complete line, ready to parse.
    Ready,
    /// The line did not fit in the buffer; its bytes up to the terminator
    /// were dropped and it is not parsed.
    TooLong,
}

pub open spec fn is_terminator(byte: u8) -> bool {
    byte == 0x0d || byte == 0x0a
}

/// One byte received by the line reader: from the line held and whether it
/// overflowed, the new line, the new flag and whether a line ended.
pub open spec fn reader_step(line: Seq<char>, overflowed: bool, byte: u8) -> (
    Seq<char>,
    bool,
    Option<Line>,
) {
    if is_terminator(byte) {
        if line.len() == 0 && !overflowed {
            (line, overflowed, None)
        } else if overflowed {
            (line, overflowed, Some(Line::TooLong))
        } else {
            (line, overflowed, Some(Line::Ready))
        }
    } else if overflowed {
        (line, true, None)
    } else if utf8_len(line) + char_utf8_len(byte as char) <= line_capacity() {
        (line.push(byte as char), false, None)
    } else {
        (line, true, None)
    }
}

/// Gathers received bytes into a line; each byte is taken as the character
/// with that code.
pub struct LineReader {
    line: LineBuffer,
    overflowed: bool,
}

impl LineReader {
    pub closed spec fn spec_line(&self) -> Seq<char> {
        line_buffer_chars(self.line)
    }

    pub closed spec fn spec_overflowed(&self) -> bool {
        self.overflowed
    }

    /// A reader with an empty line.
    pub fn new() -> (r: Self)
        ensures
            r.spec_line() == Seq::<char>::empty(),
            !r.spec_overflowed(),
    {
        LineReader { line: LineBuffer::new(), overflowed: false }
    }

    /// Takes one received byte; returns how the line ended if it did.
    pub fn feed(&mut self, byte: u8) -> (r: Option<Line>)
        ensures
            (final(self).spec_line(), final(self).spec_overflowed(), r) == reader_step(
                old(self).spec_line(),
                old(self).spec_overflowed(),
                byte,
            ),
    {
        if byte == 0x0d || byte == 0x0a {
            let empty = self.line.as_str().is_empty();
            if empty && !self.overflowed {
                return None;
            }
            return Some(
                if self.overflowed {
                    Line::TooLong
                } else {
                    Line::Ready
                },
            );
        }
        if !self.overflowed {
            let c = byte as char;
            if self.line.push(c).is_err() {
                self.overflowed = true;
            }
        }
        None
    }

    /// The line gathered so far.
    pub fn line(&self) -> (s: &str)
        ensures
            s@ == self.spec_line(),
    {
        self.line.as_str()
    }

    /// Empties the line and forgets an overflow, for the next line.
    pub fn reset(&mut self)
        ensures
            final(self).spec_line() == Seq::<char>::empty(),
            !final(self).spec_overflowed(),
    {
        self.line.clear();
        self.overflowed = false;
    }
}

/// The reply line sent back for a line.
#[derive(Clone, Copy, PartialEq, Eq, Structural, Debug)]
pub enum Reply {
    /// The command was applied.
    Applied,
    /// The line was longer than the buffer.
    LineTooLong,
    /// The line was refused.
    Error(ProtocolError),
}

pub open spec fn reply_text(r: Reply) -> Seq<char> {
    match r {
        Reply::Applied => "OK\n"@,
        Reply::LineTooLong => "ERR line too long\n"@,
        Reply::Error(e) => "ERR "@ + reason_text(e) + "\n"@,
    }
}

impl Reply {
    /// The reply as sent: one line, ended by `\n` and holding no other `\n`.
    pub fn text(&self) -> (s: &'static str)
        ensures
            s@ == reply_text(*self),
            s@.len() > 0,
            s@.last() == '\n',
            forall|i: int| 0 <= i < s@.len() - 1 ==> #[trigger] s@[i] != '\n',
    {
        proof {
            reveal_strlit("OK\n");
            reveal_strlit("ERR line too long\n");
            reveal_strlit("ERR ");
            reveal_strlit("\n");
            reveal_strlit("unknown command");
            reveal_strlit("bad args");
            reveal_strlit("unsupported char");
            reveal_strlit("ERR unknown command\n");
            reveal_strlit("ERR bad args\n");
            reveal_strlit("ERR unsupported char\n");
        }
        let s = match self {
            Reply::Applied => "OK\n",
            Reply::LineTooLong => "ERR line too long\n",
            Reply::Error(ProtocolError::UnknownCommand) => "ERR unknown command\n",
            Reply::Error(ProtocolError::BadArgs) => "ERR bad args\n",
            Reply::Error(ProtocolError::UnsupportedChar) => "ERR unsupported char\n",
        };
        assert(s@ =~= reply_text(*self));
        s
    }
}

/// What to do about a finished line.
#[derive(PartialEq, Eq, Debug)]
pub enum Response {
    /// Hand the command to the display; once it is applied, reply `OK`.
    Apply(Command),
    /// Send this reply at once.
    Reply(Reply),
}

/// What a response means: its command is taken by its meaning.
pub enum ResponseView {
    Apply(CommandView),
    Reply(Reply),
}

impl View for Response {
    type V = ResponseView;

    open spec fn view(&self) -> ResponseView {
        match self {
            Response::Apply(c) => ResponseView::Apply(c@),
            Response::Reply(r) => ResponseView::Reply(*r),
        }
    }
}

pub open spec fn option_view(r: Option<Response>) -> Option<ResponseView> {
    match r {
        Some(x) => Some(x@),
        None => None,
    }
}

pub open spec fn spec_respond(outcome: Line, line: Seq<char>) -> ResponseView {
    match outcome {
        Line::TooLong => ResponseView::Reply(Reply::LineTooLong),
        Line::Ready => match spec_parse_line(line) {
            Ok(c) => ResponseView::Apply(c),
            Err(e) => ResponseView::Reply(Reply::Error(e)),
        },
    }
}

/// What to do about a line that ended as `outcome`.
pub fn respond(outcome: Line, line: &str) -> (r: Response)
    ensures
        r@ == spec_respond(outcome, line@),
{
    match outcome {
        Line::TooLong => Response::Reply(Reply::LineTooLong),
        Line::Ready => match parse_line(line) {
            Ok(c) => Response::Apply(c),
            Err(e) => Response::Reply(Reply::Error(e)),
        },
    }
}

/// One byte received in a session: from the line held and its overflow flag,
/// the new ones and the response to a line that ended.
pub open spec fn session_step(line: Seq<char>, overflowed: bool, byte: u8) -> (
    Seq<char>,
    bool,
    Option<ResponseView>,
) {
    let (l, o, out) = reader_step(line, overflowed, byte);
    match out {
        None => (l, o, None),
        Some(outcome) => (Seq::empty(), false, Some(spec_respond(outcome, l))),
    }
}

/// The bytes received so far, taken in order from a session holding `line`
/// and `overflowed`: the line and flag left, and the responses given.
pub open spec fn session_run(line: Seq<char>, overflowed: bool, bytes: Seq<u8>) -> (
    Seq<char>,
    bool,
    Seq<ResponseView>,
)
    decreases bytes.len(),
{
    if bytes.len() == 0 {
        (line, overflowed, Seq::empty())
    } else {
        let (l, o, outs) = session_run(line, overflowed, bytes.drop_last());
        let (l2, o2, out) = session_step(l, o, bytes.last());
        match out {
            None => (l2, o2, outs),
            Some(r) => (l2, o2, outs.push(r)),
        }
    }
}

/// The state of one client session.
pub struct Session {
    reader: LineReader,
    awaiting_ack: bool,
}

impl Session {
    pub closed spec fn spec_line(&self) -> Seq<char> {
        self.reader.spec_line()
    }

    pub closed spec fn spec_overflowed(&self) -> bool {
        self.reader.spec_overflowed()
    }

    /// A command was handed on and its `OK` waits for it to be applied.
    pub closed spec fn spec_awaiting_ack(&self) -> bool {
        self.awaiting_ack
    }

    /// A session that has received nothing yet.
    pub fn new() -> (s: Self)
        ensures
            s.spec_line() == Seq::<char>::empty(),
            !s.spec_overflowed(),
            !s.spec_awaiting_ack(),
    {
        Session { reader: LineReader::new(), awaiting_ack: false }
    }

    /// Takes one received byte; returns the response to the line it ended,
    /// if any. After a command to apply, no byte is taken until the display
    /// has applied it (`on_applied`).
    pub fn on_byte(&mut self, byte: u8) -> (r: Option<Response>)
        requires
            !old(self).spec_awaiting_ack(),
        ensures
            (final(self).spec_line(), final(self).spec_overflowed(), option_view(r))
                == session_step(
                old(self).spec_line(),
                old(self).spec_overflowed(),
                byte,
            ),
            final(self).spec_awaiting_ack() == (r matches Some(Response::Apply(_))),
    {
        match self.reader.feed(byte) {
            None => None,
            Some(outcome) => {
                let r = respond(outcome, self.reader.line());
                self.reader.reset();
                if let Response::Apply(_) = r {
                    self.awaiting_ack = true;
                }
                Some(r)
            },
        }
    }

    /// The display applied the command handed on: the reply to its line is
    /// `OK`, and the session takes bytes again.
    pub fn on_applied(&mut self) -> (r: Reply)
        requires
            old(self).spec_awaiting_ack(),
        ensures
            r == Reply::Applied,
            !final(self).spec_awaiting_ack(),
            final(self).spec_line() == old(self).spec_line(),
            final(self).spec_overflowed() == old(self).spec_overflowed(),
    {
        self.awaiting_ack = false;
        Reply::Applied
    }
}

/// The characters that received bytes stand for: each byte is the character
/// with that code.
pub open spec fn bytes_as_chars(bytes: Seq<u8>) -> Seq<char> {
    bytes.map_values(|b: u8| b as char)
}

/// The response owed to a line of `bytes` (no terminator among them) once
/// it ends: too long if its characters take more than 32 bytes of UTF-8,
/// else what the parsed line asks for.
pub open spec fn line_response(bytes: Seq<u8>) -> ResponseView {
    if utf8_len(bytes_as_chars(bytes)) > line_capacity() {
        ResponseView::Reply(Reply::LineTooLong)
    } else {
        spec_respond(Line::Ready, bytes_as_chars(bytes))
    }
}

/// Law: a terminator that comes while the line is empty (a blank line, or
/// the second half of a `\r\n` or `\n\r` pair) is ignored: no reply, no change.
pub proof fn lemma_blank_line_ignored(byte: u8)
    requires
        is_terminator(byte),
    ensures
        session_step(Seq::empty(), false, byte) == (Seq::<char>::empty(), false, None::<ResponseView>),
{
}

/// Law: `\r` and `\n` end a line alike, and a second terminator right
/// after the first changes nothing, so LF, CR, CRLF and LFCR senders get the
/// same replies.
pub proof fn lemma_line_endings_alike(line: Seq<char>, overflowed: bool, bytes: Seq<u8>, t1: u8, t2: u8)
    requires
        is_terminator(t1),
        is_terminator(t2),
    ensures
        session_run(line, overflowed, bytes.push(t1)) == session_run(line, overflowed, bytes.push(t2)),
        session_run(line, overflowed, bytes.push(t1).push(t2)) == session_run(
            line,
            overflowed,
            bytes.push(t1),
        ),
{
    assert(bytes.push(t1).drop_last() =~= bytes);
    assert(bytes.push(t2).drop_last() =~= bytes);
    assert(bytes.push(t1).push(t2).drop_last() =~= bytes.push(t1));
}

proof fn lemma_utf8_len_push(s: Seq<char>, c: char)
    ensures
        utf8_len(s.push(c)) == utf8_len(s) + char_utf8_len(c),
{
    assert(s.push(c).drop_last() =~= s);
}

proof fn lemma_run_within_line(bytes: Seq<u8>)
    requires
        forall|i: int| 0 <= i < bytes.len() ==> !is_terminator(#[trigger] bytes[i]),
    ensures
        ({
            let (l, o, outs) = session_run(Seq::empty(), false, bytes);
            &&& outs.len() == 0
            &&& o == (utf8_len(bytes_as_chars(bytes)) > line_capacity())
            &&& !o ==> l == bytes_as_chars(bytes)
            &&& bytes.len() > 0 ==> (l.len() > 0 || o)
        }),
    decreases bytes.len(),
{
    if bytes.len() > 0 {
        let prev = bytes.drop_last();
        let b = bytes.last();
        assert forall|i: int| 0 <= i < prev.len() implies !is_terminator(#[trigger] prev[i]) by {
            assert(prev[i] == bytes[i]);
        }
        lemma_run_within_line(prev);
        assert(!is_terminator(bytes[bytes.len() - 1]));
        assert(bytes_as_chars(bytes) =~= bytes_as_chars(prev).push(b as char));
        lemma_utf8_len_push(bytes_as_chars(prev), b as char);
        let (l, o, outs) = session_run(Seq::empty(), false, prev);
        if !o {
            lemma_utf8_len_push(l, b as char);
        }
    }
}

/// Law: a line of bytes without terminators, received from the start of a
/// session (or right after another line) and then ended, gets exactly one
/// response, the one owed to it, and leaves the session ready for the next
/// line; a blank line gets none.
pub proof fn lemma_line_answered(bytes: Seq<u8>, t: u8)
    requires
        forall|i: int| 0 <= i < bytes.len() ==> !is_terminator(#[trigger] bytes[i]),
        is_terminator(t),
    ensures
        session_run(Seq::empty(), false, bytes.push(t)) == (
            Seq::<char>::empty(),
            false,
            if bytes.len() == 0 {
                Seq::<ResponseView>::empty()
            } else {
                seq![line_response(bytes)]
            },
        ),
{
    lemma_run_within_line(bytes);
    assert(bytes.push(t).drop_last() =~= bytes);
    let (l, o, outs) = session_run(Seq::empty(), false, bytes);
    if bytes.len() > 0 {
        assert(outs.push(line_response(bytes)) =~= seq![line_response(bytes)]);
    } else {
        assert(l =~= Seq::<char>::empty());
    }
}

/// Law: a session that receives `a` then `b` is where it would be after
/// receiving `b` from the state `a` left, with the responses to `a`
/// followed by those to `b`.
pub proof fn lemma_run_append(line: Seq<char>, overflowed: bool, a: Seq<u8>, b: Seq<u8>)
    ensures
        ({
            let (l1, o1, outs1) = session_run(line, overflowed, a);
            let (l2, o2, outs2) = session_run(l1, o1, b);
            session_run(line, overflowed, a + b) == (l2, o2, outs1 + outs2)
        }),
    decreases b.len(),
{
    let (l1, o1, outs1) = session_run(line, overflowed, a);
    if b.len() == 0 {
        assert(a + b =~= a);
        assert(outs1 + Seq::<ResponseView>::empty() =~= outs1);
    } else {
        lemma_run_append(line, overflowed, a, b.drop_last());
        assert((a + b).drop_last() =~= a + b.drop_last());
        assert((a + b).last() == b.last());
        let (lp, op, outsp) = session_run(l1, o1, b.drop_last());
        let (l2, o2, out) = session_step(lp, op, b.last());
        match out {
            None => {},
            Some(r) => {
                assert(outs1 + outsp.push(r) =~= (outs1 + outsp).push(r));
            },
        }
    }
}

/// Law: after a terminator the session holds an empty line and no
/// overflow, whatever came before: each line starts afresh.
pub proof fn lemma_fresh_after_terminator(line: Seq<char>, overflowed: bool, a: Seq<u8>, t: u8)
    requires
        is_terminator(t),
    ensures
        session_run(line, overflowed, a.push(t)).0 == Seq::<char>::empty(),
        !session_run(line, overflowed, a.push(t)).1,
{
    assert(a.push(t).drop_last() =~= a);
    let (l, o, outs) = session_run(line, overflowed, a);
    if l.len() == 0 && !o {
        assert(l =~= Seq::<char>::empty());
    }
}

/// Law: line endings are alike anywhere in the stream: where a line ends
/// with `\r` or `\n`, one terminator may be swapped for the other, and a
/// second terminator may follow it, and the session gives the same
/// responses and ends in the same state. Applied at each line end in turn,
/// LF, CR, CRLF and LFCR clients are treated alike.
pub proof fn lemma_line_endings_alike_anywhere(
    line: Seq<char>,
    overflowed: bool,
    a: Seq<u8>,
    b: Seq<u8>,
    t1: u8,
    t2: u8,
)
    requires
        is_terminator(t1),
        is_terminator(t2),
    ensures
        session_run(line, overflowed, a.push(t1) + b) == session_run(line, overflowed, a.push(t2) + b),
        session_run(line, overflowed, a.push(t1).push(t2) + b) == session_run(
            line,
            overflowed,
            a.push(t1) + b,
        ),
{
    lemma_line_endings_alike(line, overflowed, a, t1, t2);
    lemma_run_append(line, overflowed, a.push(t1), b);
    lemma_run_append(line, overflowed, a.push(t2), b);
    lemma_run_append(line, overflowed, a.push(t1).push(t2), b);
}

/// Law: every line of the stream gets exactly one response, the one owed to
/// it (none for a blank line): after any bytes `a` that end a line (or none
/// at all, from the start), a line of `bytes` ended by a terminator adds
/// just that response and leaves the session ready for the next line.
pub proof fn lemma_each_line_answered(a: Seq<u8>, bytes: Seq<u8>, t: u8)
    requires
        a.len() == 0 || is_terminator(a.last()),
        forall|i: int| 0 <= i < bytes.len() ==> !is_terminator(#[trigger] bytes[i]),
        is_terminator(t),
    ensures
        ({
            let (l1, o1, outs1) = session_run(Seq::empty(), false, a);
            session_run(Seq::empty(), false, a + bytes.push(t)) == (
                Seq::<char>::empty(),
                false,
                if bytes.len() == 0 {
                    outs1
                } else {
                    outs1.push(line_response(bytes))
                },
            )
        }),
{
    let (l1, o1, outs1) = session_run(Seq::empty(), false, a);
    if a.len() > 0 {
        assert(a.drop_last().push(a.last()) =~= a);
        lemma_fresh_after_terminator(Seq::empty(), false, a.drop_last(), a.last());
    } else {
        assert(l1 =~= Seq::<char>::empty());
    }
    lemma_run_append(Seq::empty(), false, a, bytes.push(t));
    lemma_line_answered(bytes, t);
    if bytes.len() == 0 {
        assert(outs1 + Seq::<ResponseView>::empty() =~= outs1);
    } else {
        assert(outs1 + seq![line_response(bytes)] =~= outs1.push(line_response(bytes)));
    }
}

/// A line ending as clients send it: LF, CR, CRLF or LFCR.
pub open spec fn is_line_ending(e: Seq<u8>) -> bool {
    ||| e == seq![0x0au8]
    ||| e == seq![0x0du8]
    ||| e == seq![0x0du8, 0x0au8]
    ||| e == seq![0x0au8, 0x0du8]
}

/// The stream of `lines`, each followed by its ending in `endings`.
pub open spec fn join_lines(lines: Seq<Seq<u8>>, endings: Seq<Seq<u8>>) -> Seq<u8>
    decreases lines.len(),
{
    if lines.len() == 0 || endings.len() == 0 {
        Seq::empty()
    } else {
        join_lines(lines.drop_last(), endings.drop_last()) + lines.last() + endings.last()
    }
}

/// Any line ending acts as a lone `\n` would.
proof fn lemma_ending_as_lf(line: Seq<char>, overflowed: bool, a: Seq<u8>, e: Seq<u8>)
    requires
        is_line_ending(e),
    ensures
        session_run(line, overflowed, a + e) == session_run(line, overflowed, a.push(0x0au8)),
{
    if e == seq![0x0au8] || e == seq![0x0du8] {
        assert(a + e =~= a.push(e[0]));
        lemma_line_endings_alike(line, overflowed, a, e[0], 0x0au8);
    } else {
        assert(a + e =~= a.push(e[0]).push(e[1]));
        lemma_line_endings_alike(line, overflowed, a, e[0], e[1]);
        lemma_line_endings_alike(line, overflowed, a, e[0], 0x0au8);
    }
}

/// Law: LF, CR, CRLF and LFCR clients are treated alike over a whole
/// stream: the same lines sent with any choice of line endings, line by
/// line, get the same responses and leave the session in the same state.
pub proof fn lemma_streams_alike(
    line: Seq<char>,
    overflowed: bool,
    lines: Seq<Seq<u8>>,
    e1: Seq<Seq<u8>>,
    e2: Seq<Seq<u8>>,
)
    requires
        e1.len() == lines.len(),
        e2.len() == lines.len(),
        forall|i: int| 0 <= i < lines.len() ==> is_line_ending(#[trigger] e1[i]),
        forall|i: int| 0 <= i < lines.len() ==> is_line_ending(#[trigger] e2[i]),
    ensures
        session_run(line, overflowed, join_lines(lines, e1)) == session_run(
            line,
            overflowed,
            join_lines(lines, e2),
        ),
    decreases lines.len(),
{
    if lines.len() > 0 {
        let n = lines.len() - 1;
        assert forall|i: int| 0 <= i < lines.drop_last().len() implies is_line_ending(
            #[trigger] e1.drop_last()[i],
        ) by {
            assert(e1.drop_last()[i] == e1[i]);
        }
        assert forall|i: int| 0 <= i < lines.drop_last().len() implies is_line_ending(
            #[trigger] e2.drop_last()[i],
        ) by {
            assert(e2.drop_last()[i] == e2[i]);
        }
        lemma_streams_alike(line, overflowed, lines.drop_last(), e1.drop_last(), e2.drop_last());
        let p1 = join_lines(lines.drop_last(), e1.drop_last());
        let p2 = join_lines(lines.drop_last(), e2.drop_last());
        let l = lines.last();
        assert(is_line_ending(e1[n]));
        assert(is_line_ending(e2[n]));
        lemma_run_append(line, overflowed, p1, l + e1.last());
        lemma_run_append(line, overflowed, p2, l + e2.last());
        assert(join_lines(lines, e1) == p1 + l + e1.last());
        assert(p1 + l + e1.last() =~= p1 + (l + e1.last()));
        assert(p2 + l + e2.last() =~= p2 + (l + e2.last()));
        let (ls, os, outs) = session_run(line, overflowed, p1);
        lemma_ending_as_lf(ls, os, l, e1.last());
        lemma_ending_as_lf(ls, os, l, e2.last());
    }
}

} // verus!
