//! Discarding a response's body, so that the connection can be used again.
//!
//! The caller does the reading. It asks for the next step, carries it out on
//! the stream and says that it has done so.

use crate::parser::{Parser, ParserModel};
use crate::response::{Response, ResponseModel};
use crate::text::{same_text, usize_from_text, utf8_text};
use vstd::prelude::*;
use vstd::utf8::*;

verus! {

/// A line that has this many bytes and no end is not a chunk's first line.
pub const CHUNK_LINE: usize = 16;

/// How far the discarding of a body has come.
#[derive(Debug, Clone, Copy, PartialEq, Eq, Structural)]
pub enum Body {
    /// Of a body with a given length, `left` bytes have not been received.
    Sized { left: usize },
    /// A chunk's first line comes next.
    Chunked,
    /// There is no body.
    Absent,
}

/// Why a body could not be discarded.
#[derive(Debug, Clone, Copy, PartialEq, Eq, Structural)]
pub enum BodyError {
    /// The length of the body is not a number.
    BadLength,
    /// A chunk's first line has no end within the `len` bytes received of it.
    NoChunkLine { len: usize },
    /// A chunk's first line is too long.
    LongChunkLine,
    /// A chunk's first line does not end in a carriage return and a newline.
    MissingCarriageReturn,
    /// The size of a chunk is not a hexadecimal number.
    BadChunkSize,
}

/// What to do next while a body is being discarded.
#[derive(Debug, Clone, Copy, PartialEq, Eq, Structural)]
pub enum BodyStep {
    /// Read what there is, at least one byte.
    Read,
    /// Read as many bytes as this.
    ReadExact(usize),
    /// The body has been discarded.
    Done,
    /// The body cannot be discarded.
    Failed(BodyError),
    /// There is no next step: a chunk's first line is empty or not text, or
    /// the buffer cannot hold what comes next.
    Stuck,
}

/// What the start of some bytes is, taken as a chunk's first line.
#[derive(Debug, Clone, Copy, PartialEq, Eq, Structural)]
pub enum ChunkLine {
    /// A line that goes on.
    Unfinished,
    /// A line that should have ended.
    Endless,
    /// A line that ended too late.
    Long,
    /// A newline and nothing before it.
    Empty,
    /// A line that ends in a newline alone.
    Bare,
    /// A line that is not text.
    Garbled,
    /// A line that is not a number.
    NotHex,
    /// The size of a chunk; the line is `len` bytes long with its end.
    Size { size: usize, len: usize },
}

/// What the start of `s` is, taken as a chunk's first line: a hexadecimal
/// number, a carriage return and a newline.
pub open spec fn chunk_line(s: Seq<u8>) -> ChunkLine {
    match s.index_of_first(10u8) {
        None => if s.len() < CHUNK_LINE {
            ChunkLine::Unfinished
        } else {
            ChunkLine::Endless
        },
        Some(end) => if end > CHUNK_LINE {
            ChunkLine::Long
        } else if end == 0 {
            ChunkLine::Empty
        } else if s[end - 1] != 13u8 {
            ChunkLine::Bare
        } else if !valid_utf8(s.take(end - 1)) {
            ChunkLine::Garbled
        } else {
            match crate::text::usize_value(decode_utf8(s.take(end - 1)), 16) {
                Some(size) => ChunkLine::Size { size, len: (end + 1) as usize },
                None => ChunkLine::NotHex,
            }
        },
    }
}

/// What one chunk's first line leads to.
#[derive(Debug, Clone, Copy, PartialEq, Eq, Structural)]
pub enum ChunkStep {
    /// The whole chunk was there: the next one follows.
    Next,
    /// The line goes on.
    Read,
    /// As many bytes as this end the chunk.
    ReadExact(usize),
    /// It was the last chunk.
    Last,
    /// The body cannot be discarded.
    Failed(BodyError),
}

/// The buffer and the next step once the chunk that comes next was looked at.
/// Each chunk's data is followed by a carriage return and a newline, and so is
/// the last chunk's line.
pub open spec fn chunk_step(p: ParserModel) -> (ParserModel, ChunkStep) {
    let s = p.unparsed();
    match chunk_line(s) {
        ChunkLine::Unfinished => (p, ChunkStep::Read),
        ChunkLine::Endless => (
            p,
            ChunkStep::Failed(BodyError::NoChunkLine { len: s.len() as usize }),
        ),
        ChunkLine::Long => (p, ChunkStep::Failed(BodyError::LongChunkLine)),
        ChunkLine::Bare => (p, ChunkStep::Failed(BodyError::MissingCarriageReturn)),
        ChunkLine::NotHex => (p, ChunkStep::Failed(BodyError::BadChunkSize)),
        ChunkLine::Size { size, len } => {
            let whole = len + size + 2;
            if size == 0 {
                (p.consume(whole), ChunkStep::Last)
            } else if whole <= s.len() {
                (p.consume(whole), ChunkStep::Next)
            } else {
                let left = whole - s.len();
                (
                    p.consume(s.len() as int).ensure_space(left),
                    ChunkStep::ReadExact(left as usize),
                )
            }
        },
        ChunkLine::Empty | ChunkLine::Garbled => arbitrary(),
    }
}

/// Whether the chunk that comes next has a next step.
pub open spec fn chunk_defined(p: ParserModel) -> bool {
    let s = p.unparsed();
    match chunk_line(s) {
        ChunkLine::Empty => false,
        ChunkLine::Garbled => false,
        ChunkLine::Size { size, len } => {
            let whole = len + size + 2;
            size > 0 && whole > s.len() ==> size + 2 <= usize::MAX && p.can_hold(whole - s.len())
        },
        _ => true,
    }
}

/// How many of the bytes of `s` are taken up by whole chunks at its start.
pub open spec fn whole_chunks(s: Seq<u8>) -> int
    decreases s.len(),
{
    match chunk_line(s) {
        ChunkLine::Size { size, len } => {
            let whole = len + size + 2;
            if size > 0 && whole <= s.len() {
                whole + whole_chunks(s.skip(whole))
            } else {
                0
            }
        },
        _ => 0,
    }
}

/// The buffer and the next step where a chunk's first line comes next: whole
/// chunks are passed over.
pub open spec fn chunks_step(p: ParserModel) -> (ParserModel, BodyStep) {
    let q = p.consume(whole_chunks(p.unparsed()));
    if chunk_defined(q) {
        let (r, step) = chunk_step(q);
        (
            r,
            match step {
                ChunkStep::Read => BodyStep::Read,
                ChunkStep::ReadExact(amount) => BodyStep::ReadExact(amount),
                ChunkStep::Last => BodyStep::Done,
                ChunkStep::Failed(error) => BodyStep::Failed(error),
                ChunkStep::Next => BodyStep::Stuck,
            },
        )
    } else {
        (q, BodyStep::Stuck)
    }
}

/// The body that a response's header announces. A given length counts; only
/// where there is none does the transfer encoding.
pub open spec fn announced_body(p: ParserModel, response: ResponseModel) -> Result<
    Body,
    BodyError,
> {
    if response.headers.contains_key("Content-Length"@) {
        match crate::text::usize_value(response.headers["Content-Length"@], 10) {
            Some(length) => Ok(
                Body::Sized {
                    left: if length > p.write - p.read {
                        (length - (p.write - p.read)) as usize
                    } else {
                        0
                    },
                },
            ),
            None => Err(BodyError::BadLength),
        }
    } else if response.headers.contains_key("Transfer-Encoding"@) {
        Ok(Body::Chunked)
    } else {
        Ok(Body::Absent)
    }
}

/// Whether a body can be announced in this way: the end of a body with a given
/// length can be counted from the start of the buffer, and the only transfer
/// encoding is the chunked one.
pub open spec fn can_announce(p: ParserModel, response: ResponseModel) -> bool {
    if response.headers.contains_key("Content-Length"@) {
        crate::text::usize_value(response.headers["Content-Length"@], 10) matches Some(length)
            ==> length + p.read <= usize::MAX
    } else {
        response.headers.contains_key("Transfer-Encoding"@)
            ==> response.headers["Transfer-Encoding"@] == "chunked"@
    }
}

/// The buffer and the next step while a body is being discarded.
pub open spec fn body_step(p: ParserModel, body: Body) -> (ParserModel, BodyStep) {
    match body {
        Body::Sized { left } => {
            let amount = if left <= p.bytes.len() {
                left as int
            } else {
                p.bytes.len() as int
            };
            if left == 0 {
                (p, BodyStep::Done)
            } else if amount == 0 || !p.can_hold(amount) {
                (p, BodyStep::Stuck)
            } else {
                (p.ensure_space(amount), BodyStep::ReadExact(amount as usize))
            }
        },
        Body::Chunked => chunks_step(p),
        Body::Absent => (p, BodyStep::Done),
    }
}

/// The buffer and what is left of the body once `amount` bytes of it were
/// received and passed over.
pub open spec fn body_read(p: ParserModel, body: Body, amount: int) -> (ParserModel, Body) {
    (
        p.receive(amount).consume(amount),
        match body {
            Body::Sized { left } => Body::Sized { left: (left - amount) as usize },
            _ => body,
        },
    )
}

proof fn lemma_skip(p: ParserModel, amount: int)
    requires
        p.wf(),
        0 <= amount <= p.unparsed().len(),
    ensures
        p.consume(amount).wf(),
        p.consume(amount).unparsed() == p.unparsed().skip(amount),
{
    assert(p.consume(amount).unparsed() =~= p.unparsed().skip(amount));
}

proof fn lemma_chunk_line(s: Seq<u8>)
    ensures
        chunk_line(s) matches ChunkLine::Size { size, len } ==> 2 <= len <= s.len() && len
            <= CHUNK_LINE + 1,
{
    s.index_of_first_ensures(10u8);
}

impl Parser {
    /// What comes next, taken as a chunk's first line.
    pub fn chunk_line(&self) -> (res: ChunkLine)
        requires
            self@.wf(),
        ensures
            res == chunk_line(self@.unparsed()),
    {
        let s = self.unparsed();
        proof {
            s@.index_of_first_ensures(10u8);
        }
        let mut end: usize = 0;
        while end < s.len() && s[end] != 10
            invariant
                0 <= end <= s@.len(),
                forall|i: int| 0 <= i < end ==> s@[i] != 10,
            decreases s@.len() - end,
        {
            end = end + 1;
        }
        if end == s.len() {
            return if s.len() < CHUNK_LINE {
                ChunkLine::Unfinished
            } else {
                ChunkLine::Endless
            };
        }
        assert(s@[end as int] == 10);
        assert(s@.index_of_first(10u8) == Some(end as int));
        if end > CHUNK_LINE {
            return ChunkLine::Long;
        }
        if end == 0 {
            return ChunkLine::Empty;
        }
        if s[end - 1] != 13 {
            return ChunkLine::Bare;
        }
        match utf8_text(vstd::slice::slice_subrange(s, 0, end - 1)) {
            None => ChunkLine::Garbled,
            Some(text) => match usize_from_text(text, 16) {
                Some(size) => ChunkLine::Size { size, len: end + 1 },
                None => ChunkLine::NotHex,
            },
        }
    }

    /// Whether the chunk that comes next has a next step.
    pub fn chunk_defined(&self) -> (res: bool)
        requires
            self@.wf(),
        ensures
            res == chunk_defined(self@),
    {
        proof {
            lemma_chunk_line(self@.unparsed());
        }
        match self.chunk_line() {
            ChunkLine::Empty => false,
            ChunkLine::Garbled => false,
            ChunkLine::Size { size, len } => {
                let there: usize = self.write_idx - self.read_idx - len;
                if size == 0 {
                    true
                } else if size > usize::MAX - 2 {
                    false
                } else if size + 2 <= there {
                    true
                } else {
                    self.can_hold(size + 2 - there)
                }
            },
            _ => true,
        }
    }

    /// Looks at the chunk that comes next.
    pub fn drop_chunk(&mut self) -> (res: ChunkStep)
        requires
            old(self)@.wf(),
            chunk_defined(old(self)@),
        ensures
            (final(self)@, res) == chunk_step(old(self)@),
            res != ChunkStep::Last ==> final(self)@.wf(),
            res matches ChunkStep::ReadExact(amount) ==> final(self)@.write + amount
                <= final(self)@.bytes.len(),
    {
        proof {
            lemma_chunk_line(self@.unparsed());
        }
        let there: usize = self.write_idx - self.read_idx;
        match self.chunk_line() {
            ChunkLine::Size { size, len } => {
                self.consume(len);
                if size == 0 {
                    self.consume(2);
                    return ChunkStep::Last;
                }
                let there: usize = self.write_idx - self.read_idx;
                if size <= usize::MAX - 2 && size + 2 <= there {
                    self.consume(size + 2);
                    return ChunkStep::Next;
                }
                let left: usize = size + 2 - there;
                self.consume(there);
                self.ensure_space(left);
                ChunkStep::ReadExact(left)
            },
            ChunkLine::Unfinished => ChunkStep::Read,
            ChunkLine::Endless => ChunkStep::Failed(BodyError::NoChunkLine { len: there }),
            ChunkLine::Long => ChunkStep::Failed(BodyError::LongChunkLine),
            ChunkLine::Bare => ChunkStep::Failed(BodyError::MissingCarriageReturn),
            ChunkLine::NotHex => ChunkStep::Failed(BodyError::BadChunkSize),
            ChunkLine::Empty => ChunkStep::Next,
            ChunkLine::Garbled => ChunkStep::Next,
        }
    }

    /// Passes over the whole chunks that come next and looks at the one after
    /// them.
    pub fn drop_chunks(&mut self) -> (res: BodyStep)
        requires
            old(self)@.wf(),
        ensures
            (final(self)@, res) == chunks_step(old(self)@),
            res != BodyStep::Done ==> final(self)@.wf(),
            res matches BodyStep::ReadExact(amount) ==> final(self)@.write + amount
                <= final(self)@.bytes.len(),
    {
        loop
            invariant
                self@.wf(),
                chunks_step(self@) == chunks_step(old(self)@),
            decreases self@.unparsed().len(),
        {
            let ghost before = self@;
            let ghost s = before.unparsed();
            proof {
                lemma_chunk_line(s);
                if let ChunkLine::Size { size, len } = chunk_line(s) {
                    let whole = len + size + 2;
                    if size > 0 && whole <= s.len() {
                        lemma_skip(before, whole);
                        assert(before.consume(whole_chunks(s)) == before.consume(whole).consume(
                            whole_chunks(s.skip(whole)),
                        ));
                    } else {
                        assert(before.consume(0) == before);
                    }
                } else {
                    assert(before.consume(0) == before);
                }
            }
            if !self.chunk_defined() {
                return BodyStep::Stuck;
            }
            match self.drop_chunk() {
                ChunkStep::Next => {},
                ChunkStep::Read => {
                    return BodyStep::Read;
                },
                ChunkStep::ReadExact(amount) => {
                    return BodyStep::ReadExact(amount);
                },
                ChunkStep::Last => {
                    return BodyStep::Done;
                },
                ChunkStep::Failed(error) => {
                    return BodyStep::Failed(error);
                },
            }
        }
    }

    /// Whether a body can be announced as `response` does it.
    pub fn can_announce(&self, response: &Response) -> (res: bool)
        ensures
            res == can_announce(self@, response@),
    {
        match response.headers.get("Content-Length") {
            Some(text) => match usize_from_text(text, 10) {
                Some(length) => length <= usize::MAX - self.read_idx,
                None => true,
            },
            None => match response.headers.get("Transfer-Encoding") {
                Some(encoding) => same_text(encoding, "chunked"),
                None => true,
            },
        }
    }

    /// Starts to discard the body of a response whose header has just been
    /// read.
    pub fn drop_body(&self, response: &Response) -> (res: Result<Body, BodyError>)
        requires
            self@.wf(),
            can_announce(self@, response@),
        ensures
            res == announced_body(self@, response@),
    {
        match response.headers.get("Content-Length") {
            Some(text) => match usize_from_text(text, 10) {
                Some(length) => {
                    let response_size: usize = length + self.read_idx;
                    let received: usize = if self.write_idx < response_size {
                        self.write_idx
                    } else {
                        response_size
                    };
                    Ok(Body::Sized { left: response_size - received })
                },
                None => Err(BodyError::BadLength),
            },
            None => match response.headers.get("Transfer-Encoding") {
                Some(_) => Ok(Body::Chunked),
                None => Ok(Body::Absent),
            },
        }
    }

    /// Says what to do next to discard a body. After `ReadExact` the buffer has
    /// room for that many bytes behind those received before.
    pub fn body_step(&mut self, body: &Body) -> (res: BodyStep)
        requires
            old(self)@.wf(),
        ensures
            (final(self)@, res) == body_step(old(self)@, *body),
            res != BodyStep::Done ==> final(self)@.wf(),
            res matches BodyStep::ReadExact(amount) ==> final(self)@.write + amount
                <= final(self)@.bytes.len(),
    {
        match *body {
            Body::Sized { left } => {
                if left == 0 {
                    return BodyStep::Done;
                }
                let amount: usize = if left < self.bytes.len() {
                    left
                } else {
                    self.bytes.len()
                };
                if amount == 0 || !self.can_hold(amount) {
                    return BodyStep::Stuck;
                }
                self.ensure_space(amount);
                BodyStep::ReadExact(amount)
            },
            Body::Chunked => self.drop_chunks(),
            Body::Absent => BodyStep::Done,
        }
    }

    /// Notes that the `amount` bytes that were asked for have been received,
    /// and passes over them.
    pub fn body_read(&mut self, body: &mut Body, amount: usize)
        requires
            old(self)@.wf(),
            old(self)@.write + amount <= old(self)@.bytes.len(),
            *old(body) matches Body::Sized { left } ==> amount <= left,
        ensures
            (final(self)@, *final(body)) == body_read(old(self)@, *old(body), amount as int),
            final(self)@.wf(),
            final(self).read_idx == old(self).read_idx + amount,
            final(self).write_idx == old(self).write_idx + amount,
            final(self).bytes@ == old(self).bytes@,
    {
        self.write_idx = self.write_idx + amount;
        self.consume(amount);
        match *body {
            Body::Sized { left } => {
                *body = Body::Sized { left: left - amount };
            },
            _ => {},
        }
    }
}

} // verus!
