//! Cutting a stream of bytes into time frames: what to parse, and when to read on.

use vstd::prelude::*;

verus! {

/// How the buffered bytes parse as one time frame.
#[derive(Debug, Clone, Copy, PartialEq, Eq, Structural)]
pub enum Parsed {
    /// They are a time frame.
    Frame,
    /// They end too early.
    Cut,
    /// They are no time frame, whatever follows.
    Malformed,
}

/// What is to be done next.
#[derive(Debug)]
pub enum Step {
    /// Parse everything that is buffered, and tell [`Framer::parsed`] how that went.
    ParseAll,
    /// Parse this line; it must be a time frame, which is then delivered.
    ParseLine(Vec<u8>),
    /// Read, and hand what came to [`Framer::received`].
    Read,
    /// Parse everything that is buffered; it must be a time frame, of which [`Framer::parsed`] is
    /// told.
    ParseRest,
    /// Deliver the time frame that was parsed.
    Deliver,
    /// The stream is at its end.
    End,
}

/// What a [`Step`] says.
pub enum StepView {
    ParseAll,
    ParseLine(Seq<u8>),
    Read,
    ParseRest,
    Deliver,
    End,
}

impl View for Step {
    type V = StepView;

    open spec fn view(&self) -> StepView {
        match *self {
            Step::ParseAll => StepView::ParseAll,
            Step::ParseLine(line) => StepView::ParseLine(line@),
            Step::Read => StepView::Read,
            Step::ParseRest => StepView::ParseRest,
            Step::Deliver => StepView::Deliver,
            Step::End => StepView::End,
        }
    }
}

/// The number of bytes before the first newline, or of all bytes if there is none.
pub open spec fn line_length(bytes: Seq<u8>) -> int
    decreases bytes.len(),
{
    if bytes.len() == 0 || bytes[0] == 10 {
        0
    } else {
        1 + line_length(bytes.skip(1))
    }
}

/// A byte that does not end a line.
pub open spec fn inner_byte(b: u8) -> bool {
    b != 10 && b != 13
}

/// The bytes without newlines and carriage returns.
pub open spec fn trimmed(bytes: Seq<u8>) -> Seq<u8> {
    bytes.filter(|b: u8| inner_byte(b))
}

/// What comes first, with these bytes in the buffer.
pub open spec fn start(bytes: Seq<u8>) -> StepView {
    if bytes.len() == 0 {
        StepView::Read
    } else {
        StepView::ParseAll
    }
}

/// The buffer and the next step.
pub struct Next {
    pub bytes: Seq<u8>,
    pub step: StepView,
}

/// What follows after the buffer was parsed. A time frame uses it up. Bytes that are malformed are
/// taken line by line: the first line leaves the buffer, and is parsed by itself if there is
/// anything in it. Where there is no whole line yet, more is read.
pub open spec fn after_parse(bytes: Seq<u8>, how: Parsed) -> Next {
    match how {
        Parsed::Frame => Next { bytes: Seq::empty(), step: StepView::Deliver },
        Parsed::Cut => Next { bytes, step: StepView::Read },
        Parsed::Malformed => {
            let n = line_length(bytes);
            if n == bytes.len() {
                Next { bytes, step: StepView::Read }
            } else {
                let line = trimmed(bytes.take(n + 1));
                let rest = bytes.skip(n + 1);
                Next {
                    bytes: rest,
                    step: if line.len() == 0 {
                        start(rest)
                    } else {
                        StepView::ParseLine(line)
                    },
                }
            }
        },
    }
}

/// What follows after a read. Reading nothing means the end of the stream, where what is left in
/// the buffer must be a time frame.
pub open spec fn after_read(bytes: Seq<u8>, got: Seq<u8>) -> Next {
    Next {
        bytes: bytes + got,
        step: if got.len() > 0 {
            StepView::ParseAll
        } else if bytes.len() == 0 {
            StepView::End
        } else {
            StepView::ParseRest
        },
    }
}

/// The bytes that were read and not yet delivered.
#[derive(Debug)]
pub struct Framer {
    buf: Vec<u8>,
}

impl View for Framer {
    type V = Seq<u8>;

    closed spec fn view(&self) -> Seq<u8> {
        self.buf@
    }
}

impl Framer {
    /// A framer that has read nothing.
    pub fn new() -> (framer: Self)
        ensures
            framer@ == Seq::<u8>::empty(),
    {
        Framer { buf: Vec::new() }
    }

    /// The buffered bytes.
    pub fn bytes(&self) -> (bytes: &[u8])
        ensures
            bytes@ == self@,
    {
        self.buf.as_slice()
    }

    /// What to do first to get a time frame.
    pub fn start(&self) -> (step: Step)
        ensures
            step@ == start(self@),
    {
        if self.buf.is_empty() {
            Step::Read
        } else {
            Step::ParseAll
        }
    }

    /// Takes the first line out of the buffer, if it holds a whole one.
    fn cut_line(&mut self) -> (line: Option<Vec<u8>>)
        ensures
            ({
                let n = line_length(old(self)@);
                match line {
                    None => n == old(self)@.len() && final(self)@ == old(self)@,
                    Some(line) => {
                        &&& n < old(self)@.len()
                        &&& line@ == trimmed(old(self)@.take(n + 1))
                        &&& final(self)@ == old(self)@.skip(n + 1)
                    },
                }
            }),
    {
        let ghost all = self.buf@;
        let ghost inner = |b: u8| inner_byte(b);
        let mut line: Vec<u8> = Vec::new();
        let mut n: usize = 0;
        proof {
            reveal(Seq::filter);
            assert(all.skip(0) =~= all);
            assert(all.take(0).filter(inner) =~= Seq::empty());
        }
        while n < self.buf.len() && self.buf[n] != 10
            invariant
                all == self.buf@,
                n <= all.len(),
                inner == (|b: u8| inner_byte(b)),
                line@ == all.take(n as int).filter(inner),
                line_length(all) == n + line_length(all.skip(n as int)),
            decreases all.len() - n,
        {
            proof {
                reveal(Seq::filter);
                assert(all.take(n + 1).drop_last() =~= all.take(n as int));
                assert(all.skip(n as int).skip(1) =~= all.skip(n + 1));
            }
            if self.buf[n] != 13 {
                line.push(self.buf[n]);
            }
            n = n + 1;
        }
        if n == self.buf.len() {
            return None;
        }
        proof {
            reveal(Seq::filter);
            assert(all.take(n + 1).drop_last() =~= all.take(n as int));
        }
        let rest = self.buf.split_off(n + 1);
        self.buf = rest;
        assert(self.buf@ =~= all.skip(n + 1));
        Some(line)
    }

    /// Takes note of how the buffered bytes parsed.
    pub fn parsed(&mut self, how: Parsed) -> (step: Step)
        ensures
            (Next { bytes: final(self)@, step: step@ }) == after_parse(old(self)@, how),
    {
        match how {
            Parsed::Frame => {
                self.buf.clear();
                Step::Deliver
            },
            Parsed::Cut => Step::Read,
            Parsed::Malformed => match self.cut_line() {
                None => Step::Read,
                Some(line) => {
                    if line.is_empty() {
                        self.start()
                    } else {
                        Step::ParseLine(line)
                    }
                },
            },
        }
    }

    /// Takes in what was read.
    pub fn received(&mut self, got: &[u8]) -> (step: Step)
        ensures
            (Next { bytes: final(self)@, step: step@ }) == after_read(old(self)@, got@),
    {
        let ghost before = self.buf@;
        if got.len() == 0 {
            assert(before + got@ =~= before);
            if self.buf.is_empty() {
                Step::End
            } else {
                Step::ParseRest
            }
        } else {
            self.buf.extend_from_slice(got);
            assert(self.buf@ =~= before + got@);
            Step::ParseAll
        }
    }
}

/// The text holds the letters "EOF" in a row.
pub open spec fn mentions_eof(message: Seq<char>) -> bool {
    exists|i: int| #[trigger] eof_at(message, i)
}

/// The letters "EOF" stand at position `i`.
pub open spec fn eof_at(message: Seq<char>, i: int) -> bool {
    &&& 0 <= i
    &&& i + 3 <= message.len()
    &&& message[i] == 'E'
    &&& message[i + 1] == 'O'
    &&& message[i + 2] == 'F'
}

/// What a parse error with this message means: one that speaks of the end of the file calls for
/// more bytes.
pub fn failure(message: &str) -> (how: Parsed)
    ensures
        how == (if mentions_eof(message@) {
            Parsed::Cut
        } else {
            Parsed::Malformed
        }),
{
    let mut chars = message.chars();
    let mut before: char = ' ';
    let mut last: char = ' ';
    let ghost mut n: int = 0;
    loop
        invariant
            0 <= n <= message@.len(),
            vstd::std_specs::iter::IteratorSpec::remaining(&chars) == message@.skip(n),
            vstd::std_specs::iter::IteratorSpec::obeys_prophetic_iter_laws(&chars),
            before == (if n >= 2 {
                message@[n - 2]
            } else {
                ' '
            }),
            last == (if n >= 1 {
                message@[n - 1]
            } else {
                ' '
            }),
            forall|i: int| i + 3 <= n ==> !#[trigger] eof_at(message@, i),
        decreases message@.len() - n,
    {
        match chars.next() {
            None => {
                return Parsed::Malformed;
            },
            Some(c) => {
                assert(c == message@.skip(n)[0]);
                assert(message@.skip(n).skip(1) =~= message@.skip(n + 1));
                if before == 'E' && last == 'O' && c == 'F' {
                    assert(eof_at(message@, n - 2));
                    return Parsed::Cut;
                }
                before = last;
                last = c;
                proof {
                    n = n + 1;
                }
            },
        }
    }
}

/// No byte is lost: what leaves the buffer without being delivered is the line that is parsed next
/// by itself, or one with nothing in it.
pub proof fn no_byte_is_lost(bytes: Seq<u8>, how: Parsed)
    requires
        how != Parsed::Frame,
    ensures
        ({
            let next = after_parse(bytes, how);
            let gone = bytes.take(bytes.len() - next.bytes.len());
            &&& next.bytes.len() <= bytes.len()
            &&& bytes == gone + next.bytes
            &&& match next.step {
                StepView::ParseLine(line) => line == trimmed(gone),
                _ => trimmed(gone).len() == 0,
            }
        }),
{
    line_length_in_range(bytes);
    let n = line_length(bytes);
    let next = after_parse(bytes, how);
    let gone = bytes.take(bytes.len() - next.bytes.len());
    if how == Parsed::Malformed && n < bytes.len() {
        assert(gone =~= bytes.take(n + 1));
        assert(bytes =~= gone + next.bytes);
    } else {
        reveal(Seq::filter);
        assert(gone =~= Seq::empty());
        assert(bytes =~= gone + bytes);
    }
}

/// Parsing is tried again only on fewer bytes, or after more were read.
pub proof fn retries_shrink_the_buffer(bytes: Seq<u8>, how: Parsed)
    ensures
        after_parse(bytes, how).step == StepView::ParseAll ==> after_parse(bytes, how).bytes.len()
            < bytes.len(),
{
    line_length_in_range(bytes);
}

/// A line is no longer than the bytes, and where it is shorter, a newline follows.
proof fn line_length_in_range(bytes: Seq<u8>)
    ensures
        0 <= line_length(bytes) <= bytes.len(),
        line_length(bytes) < bytes.len() ==> bytes[line_length(bytes)] == 10,
    decreases bytes.len(),
{
    if bytes.len() > 0 && bytes[0] != 10 {
        line_length_in_range(bytes.skip(1));
    }
}

/// A time frame is delivered and uses up all that is buffered. Bytes that end too early wait for
/// more. So do malformed bytes without a newline.
pub proof fn frames_are_delivered_and_pieces_wait(bytes: Seq<u8>)
    ensures
        after_parse(bytes, Parsed::Frame).bytes.len() == 0,
        after_parse(bytes, Parsed::Frame).step == StepView::Deliver,
        after_parse(bytes, Parsed::Cut).bytes == bytes,
        after_parse(bytes, Parsed::Cut).step == StepView::Read,
        !bytes.contains(10) ==> after_parse(bytes, Parsed::Malformed).bytes == bytes && after_parse(
            bytes,
            Parsed::Malformed,
        ).step == StepView::Read,
{
    line_length_in_range(bytes);
    let n = line_length(bytes);
    if n < bytes.len() {
        assert(bytes.contains(bytes[n]));
    }
}

/// Of malformed bytes the first line leaves the buffer, with the newline that ends it. Without its
/// carriage returns it is parsed by itself. If nothing is left of it, it is passed over: parsing
/// goes on with the rest, or reading if there is none.
pub proof fn the_first_line_is_parsed_by_itself(head: Seq<u8>, rest: Seq<u8>)
    requires
        !head.contains(10),
    ensures
        ({
            let next = after_parse(head.push(10) + rest, Parsed::Malformed);
            let line = head.filter(|b: u8| b != 13);
            &&& next.bytes == rest
            &&& line.len() > 0 ==> next.step == StepView::ParseLine(line)
            &&& line.len() == 0 && rest.len() > 0 ==> next.step == StepView::ParseAll
            &&& line.len() == 0 && rest.len() == 0 ==> next.step == StepView::Read
        }),
{
    let bytes = head.push(10) + rest;
    let n = head.len() as int;
    line_ends(head, rest);
    assert(bytes.take(n + 1) =~= head.push(10));
    assert(bytes.skip(n + 1) =~= rest);
    trimmed_line(head);
}

/// A line ends before the first newline.
proof fn line_ends(head: Seq<u8>, rest: Seq<u8>)
    requires
        !head.contains(10),
    ensures
        line_length(head.push(10) + rest) == head.len(),
    decreases head.len(),
{
    let bytes = head.push(10) + rest;
    if head.len() == 0 {
        assert(bytes[0] == 10);
    } else {
        let tail = head.skip(1);
        assert(head.contains(head[0]));
        assert forall|i: int| 0 <= i < tail.len() implies tail[i] != 10 by {
            assert(head.contains(head[i + 1]));
        }
        assert(bytes.skip(1) =~= tail.push(10) + rest);
        assert(bytes[0] == head[0]);
        line_ends(tail, rest);
    }
}

/// Trimming a line that ends in a newline takes that and the carriage returns out of it.
proof fn trimmed_line(head: Seq<u8>)
    requires
        !head.contains(10),
    ensures
        trimmed(head.push(10)) == head.filter(|b: u8| b != 13),
    decreases head.len(),
{
    let inner = |b: u8| inner_byte(b);
    reveal(Seq::filter);
    assert(head.push(10).drop_last() =~= head);
    assert(trimmed(head.push(10)) == head.filter(inner));
    same_filter(head);
}

/// Where there is no newline, only carriage returns are trimmed.
proof fn same_filter(head: Seq<u8>)
    requires
        !head.contains(10),
    ensures
        head.filter(|b: u8| inner_byte(b)) == head.filter(|b: u8| b != 13),
    decreases head.len(),
{
    reveal(Seq::filter);
    if head.len() > 0 {
        let front = head.drop_last();
        assert forall|i: int| 0 <= i < front.len() implies front[i] != 10 by {
            assert(head.contains(head[i]));
        }
        assert(head.contains(head.last()));
        same_filter(front);
    }
}

/// What is read is added behind what is buffered, and all of it is parsed. A read of nothing ends
/// the stream: what is left is parsed for the last time, if anything is.
pub proof fn reads_are_added(bytes: Seq<u8>, got: Seq<u8>)
    ensures
        after_read(bytes, got).bytes == bytes + got,
        got.len() > 0 ==> after_read(bytes, got).step == StepView::ParseAll,
        got.len() == 0 && bytes.len() > 0 ==> after_read(bytes, got).step == StepView::ParseRest,
        got.len() == 0 && bytes.len() == 0 ==> after_read(bytes, got).step == StepView::End,
        bytes.len() > 0 ==> start(bytes) == StepView::ParseAll,
        bytes.len() == 0 ==> start(bytes) == StepView::Read,
{
}

/// A message speaks of the end of the file if the text "EOF" stands somewhere in it.
pub proof fn messages_are_searched_for_eof(message: Seq<char>)
    ensures
        mentions_eof(message) <==> exists|i: int|
            0 <= i <= message.len() - 3 && #[trigger] message.subrange(i, i + 3) == "EOF"@,
{
    reveal_strlit("EOF");
    if mentions_eof(message) {
        let i = choose|i: int| #[trigger] eof_at(message, i);
        assert(message.subrange(i, i + 3) =~= "EOF"@);
    }
    if exists|i: int|
        0 <= i <= message.len() - 3 && #[trigger] message.subrange(i, i + 3) == "EOF"@ {
        let i = choose|i: int|
            0 <= i <= message.len() - 3 && #[trigger] message.subrange(i, i + 3) == "EOF"@;
        let part = message.subrange(i, i + 3);
        assert(part[0] == 'E' && part[1] == 'O' && part[2] == 'F');
        assert(eof_at(message, i));
    }
}

} // verus!
