//! What discarding a body does to the buffer and to the stream it comes from,
//! however the stream is cut up into reads.

use crate::body::{Body, BodyError, BodyStep, ChunkLine, CHUNK_LINE};
use crate::parser::ParserModel;
use crate::response::ResponseModel;
use vstd::prelude::*;
use vstd::utf8::*;

verus! {

/// How the discarding of a body ended, with the buffer and what had not been
/// read from the stream.
pub enum Drained {
    /// The body has been discarded.
    Done { p: ParserModel, stream: Seq<u8> },
    /// A read was asked for that the stream did not give.
    Waiting { p: ParserModel, stream: Seq<u8> },
    /// The body cannot be discarded.
    Failed { error: BodyError, p: ParserModel, stream: Seq<u8> },
    /// There was no next step.
    Stuck,
}

/// Discards a body from a stream. `reads` are the numbers of bytes that the
/// stream has at hand at one read of no set length after the other.
#[verifier::opaque]
pub open spec fn drain(p: ParserModel, body: Body, stream: Seq<u8>, reads: Seq<int>) -> Drained
    decreases stream.len(),
{
    let (q, step) = crate::body::body_step(p, body);
    match step {
        BodyStep::Done => Drained::Done { p: q, stream },
        BodyStep::Failed(error) => Drained::Failed { error, p: q, stream },
        BodyStep::Stuck => Drained::Stuck,
        BodyStep::ReadExact(amount) => {
            if 0 < amount <= stream.len() {
                let (r, left) = crate::body::body_read(
                    q.filled(stream.take(amount as int)),
                    body,
                    amount as int,
                );
                drain(r, left, stream.skip(amount as int), reads)
            } else {
                Drained::Waiting { p: q, stream }
            }
        },
        BodyStep::Read => {
            let amount = q.read_amount(stream.len() as int, reads[0]);
            if reads.len() > 0 && amount > 0 {
                let r = q.filled(stream.take(amount)).receive(amount);
                drain(r, body, stream.skip(amount), reads.skip(1))
            } else {
                Drained::Waiting { p: q, stream }
            }
        },
    }
}

/// Whether the buffer has room for `amount` more bytes or can be made to have it
/// without growing out of bounds.
pub open spec fn fits(p: ParserModel, amount: int) -> bool {
    p.write + amount <= p.bytes.len() || 2 * (p.write + amount) <= isize::MAX
}

/// Making room keeps what was received, and there is room then.
proof fn lemma_room(p: ParserModel, space: int)
    requires
        p.wf(),
        p.bytes.len() > 0,
        0 <= space,
        fits(p, space),
    ensures
        p.ensure_space(space).bytes.len() >= p.bytes.len(),
        p.can_hold(space),
        p.ensure_space(space).wf(),
        p.ensure_space(space).bytes.len() > 0,
        p.ensure_space(space).write + space <= p.ensure_space(space).bytes.len(),
        p.ensure_space(space).unparsed() == p.unparsed(),
{
    crate::parser::lemma_grown_len(p.bytes.len() as int, p.write + space);
    assert(p.ensure_space(space).unparsed() =~= p.unparsed());
}

/// What was not dealt with is followed by what has just been received.
proof fn lemma_filled(p: ParserModel, data: Seq<u8>)
    requires
        p.wf(),
        p.write + data.len() <= p.bytes.len(),
    ensures
        p.filled(data).receive(data.len() as int).wf(),
        p.filled(data).bytes.len() == p.bytes.len(),
        p.filled(data).receive(data.len() as int).unparsed() == p.unparsed() + data,
{
    assert(p.filled(data).receive(data.len() as int).unparsed() =~= p.unparsed() + data);
}

/// The bytes of a body with a given length that have not been received are
/// read from the stream, and no others.
proof fn lemma_sized(p: ParserModel, left: usize, stream: Seq<u8>, reads: Seq<int>)
    requires
        p.wf(),
        p.bytes.len() > 0,
        left <= stream.len(),
        fits(p, left as int),
    ensures
        drain(p, Body::Sized { left }, stream, reads) matches Drained::Done { p: q, stream: rest }
            && rest == stream.skip(left as int) && q.read == p.read + left && q.write == p.write
            + left,
    decreases left,
{
    reveal(drain);
    if left == 0 {
        assert(stream.skip(0) =~= stream);
    } else {
        let amount = if left <= p.bytes.len() {
            left as int
        } else {
            p.bytes.len() as int
        };
        lemma_room(p, amount);
        let q = p.ensure_space(amount);
        let data = stream.take(amount);
        lemma_filled(q, data);
        let r = q.filled(data).receive(amount).consume(amount);
        assert(r.wf());
        let rest = (left - amount) as usize;
        lemma_sized(r, rest, stream.skip(amount), reads);
        assert(stream.skip(amount).skip(rest as int) =~= stream.skip(left as int));
    }
}

/// A body with a given length is discarded to its last byte, and nothing is
/// read beyond it. Where the buffer holds more than the body, nothing is read.
/// What was read counts as received and as dealt with, and nothing else does.
pub proof fn law_sized_body_is_discarded(
    p: ParserModel,
    response: ResponseModel,
    content: Seq<u8>,
    stream: Seq<u8>,
    after: Seq<u8>,
    reads: Seq<int>,
)
    requires
        p.wf(),
        p.bytes.len() > 0,
        response.headers.contains_key("Content-Length"@),
        crate::text::number_value(response.headers["Content-Length"@], 10) == Some(content.len()),
        p.unparsed() + stream == content + after,
        p.read + content.len() <= usize::MAX,
        p.unparsed().len() < content.len() ==> fits(p, content.len() - p.unparsed().len()),
    ensures
        crate::body::can_announce(p, response),
        crate::body::announced_body(p, response) matches Ok(body) && drain(p, body, stream, reads)
            matches Drained::Done { p: q, stream: rest } && rest == if p.unparsed().len()
            <= content.len() {
            after
        } else {
            stream
        } && q.read - p.read == q.write - p.write == stream.len() - rest.len(),
{
    let there = p.unparsed().len() as int;
    let left = if there <= content.len() {
        (content.len() - there) as usize
    } else {
        0
    };
    assert(crate::body::announced_body(p, response) == Ok::<Body, BodyError>(Body::Sized { left }));
    assert((p.unparsed() + stream).len() == (content + after).len());
    if there <= content.len() {
        assert(stream.skip(left as int) =~= after) by {
            assert((p.unparsed() + stream).skip(content.len() as int) =~= stream.skip(left as int));
            assert((content + after).skip(content.len() as int) =~= after);
        }
    } else {
        assert(stream.skip(0) =~= stream);
    }
    lemma_sized(p, left, stream, reads);
}

/// One chunk on the wire: the digits of its size and its data.
pub struct Chunk {
    pub digits: Seq<u8>,
    pub data: Seq<u8>,
}

/// The characters of some ASCII bytes.
pub open spec fn chars(bytes: Seq<u8>) -> Seq<char> {
    bytes.map_values(|b: u8| b as char)
}

/// Whether `digits` are hexadecimal digits, and few enough for a chunk's first
/// line.
pub open spec fn is_size(digits: Seq<u8>) -> bool {
    &&& 0 < digits.len() < CHUNK_LINE
    &&& forall|i: int|
        0 <= i < digits.len() ==> #[trigger] digits[i] < 128 && crate::text::is_digit(
            digits[i] as char,
            16,
        )
}

/// Whether the size of a chunk is right. The size of the last chunk alone is
/// zero.
pub open spec fn is_chunk(chunk: Chunk) -> bool {
    &&& is_size(chunk.digits)
    &&& chunk.data.len() > 0
    &&& crate::text::digits_value(chars(chunk.digits), 16) == chunk.data.len()
}

/// A carriage return and a newline.
pub open spec fn line_end() -> Seq<u8> {
    seq![13u8, 10u8]
}

/// A chunked body on the wire; `last` are the digits of the last chunk's size.
pub open spec fn wire(chunks: Seq<Chunk>, last: Seq<u8>) -> Seq<u8>
    decreases chunks.len(),
{
    if chunks.len() == 0 {
        last + line_end() + line_end()
    } else {
        chunks[0].digits + line_end() + chunks[0].data + line_end() + wire(chunks.skip(1), last)
    }
}

/// What follows the bytes dealt with: the rest of the buffer and of the stream,
/// or, where bytes count as dealt with that have not been received, the stream
/// without those.
pub open spec fn remaining(p: ParserModel, stream: Seq<u8>) -> Seq<u8> {
    if p.read <= p.write {
        p.unparsed() + stream
    } else {
        stream.skip(p.read - p.write)
    }
}

/// Whether a line with these digits is taken for an endless one where all but
/// its newline has been received.
pub open spec fn is_longest(digits: Seq<u8>) -> bool {
    digits.len() == CHUNK_LINE - 1
}

/// Whether one of the lines of a chunked body is taken for an endless one where
/// all but its newline has been received.
pub open spec fn has_longest(chunks: Seq<Chunk>, last: Seq<u8>) -> bool {
    is_longest(last) || exists|i: int|
        0 <= i < chunks.len() && is_longest((#[trigger] chunks[i]).digits)
}

/// A body cannot be discarded since all of a line but its newline, which the
/// stream holds, has been received and was taken for an endless line.
pub open spec fn is_cut(drained: Drained) -> bool {
    drained matches Drained::Failed { error, p, stream } && error == (BodyError::NoChunkLine {
        len: CHUNK_LINE,
    }) && p.unparsed().len() == CHUNK_LINE && p.unparsed().last() == 13u8 && stream.len() > 0
        && stream[0] == 10u8
}

/// A body of `len` bytes, with `after` behind it, was discarded: it counts as
/// dealt with, and `after` remains. Or a read is waited for, and the stream
/// still holds something of the body. Of a discarded body, the two bytes that
/// end it may be in the stream still.
pub open spec fn discarded(start: ParserModel, drained: Drained, len: int, after: Seq<u8>) -> bool {
    match drained {
        Drained::Done { p, stream } => {
            &&& p.read == start.read + len
            &&& p.read - p.write <= 2
            &&& p.read - p.write <= stream.len()
            &&& remaining(p, stream) == after
        },
        Drained::Waiting { p, stream } => {
            &&& p.unparsed().len() < 16
            &&& !p.unparsed().contains(10u8)
            &&& stream.len() > after.len()
        },
        _ => false,
    }
}

/// Whether there is room in the buffer for all that the stream holds, and
/// something of it at hand at so many reads that it can be read to its end.
pub open spec fn is_plenty(p: ParserModel, stream: Seq<u8>, reads: Seq<int>) -> bool {
    &&& p.write + stream.len() <= p.bytes.len()
    &&& stream.len() <= reads.len()
    &&& forall|i: int| 0 <= i < reads.len() ==> #[trigger] reads[i] > 0
}

proof fn lemma_ascii(bytes: Seq<u8>)
    requires
        forall|i: int| 0 <= i < bytes.len() ==> #[trigger] bytes[i] < 128,
    ensures
        valid_utf8(bytes),
        decode_utf8(bytes) == chars(bytes),
{
    let text = chars(bytes);
    assert(is_ascii_chars(text));
    is_ascii_chars_encode_utf8(text);
    assert(encode_utf8(text) =~= bytes) by {
        assert forall|i: int| 0 <= i < bytes.len() implies encode_utf8(text)[i] == bytes[i] by {
            assert(text[i] as u8 == encode_utf8(text)[i]);
        }
    }
    encode_utf8_valid_utf8(text);
    encode_utf8_decode_utf8(text);
}

/// The first line of a chunk is told as such once it is there as a whole, and
/// waited for until then.
proof fn lemma_line(s: Seq<u8>, digits: Seq<u8>, whole: Seq<u8>)
    requires
        is_size(digits),
        s.is_prefix_of(digits + line_end() + whole),
        crate::text::digits_value(chars(digits), 16) <= usize::MAX,
    ensures
        s.len() < digits.len() + 2 ==> crate::body::chunk_line(s) == if s.len() < CHUNK_LINE {
            ChunkLine::Unfinished
        } else {
            ChunkLine::Endless
        },
        s.len() >= digits.len() + 2 ==> crate::body::chunk_line(s) == (ChunkLine::Size {
            size: crate::text::digits_value(chars(digits), 16) as usize,
            len: (digits.len() + 2) as usize,
        }),
{
    let full = digits + line_end() + whole;
    let n = digits.len() as int;
    s.index_of_first_ensures(10u8);
    assert forall|i: int| 0 <= i < s.len() && i <= n implies s[i] != 10u8 by {
        assert(s[i] == full[i]);
        if i < n {
            assert(digits[i] < 128 && crate::text::is_digit(digits[i] as char, 16));
        }
    }
    if s.len() >= n + 2 {
        assert(s[n + 1] == full[n + 1]);
        assert(s[n] == full[n]);
        assert(s.index_of_first(10u8) == Some(n + 1));
        assert(s.take(n) =~= digits);
        lemma_ascii(digits);
        let text = chars(digits);
        assert(text[0] == digits[0] as char);
        assert(crate::text::is_digit(digits[0] as char, 16));
        assert forall|i: int| 0 <= i < text.len() implies crate::text::is_digit(
            #[trigger] text[i],
            16,
        ) by {
            assert(digits[i] < 128);
        }
    }
}

/// A whole chunk that is passed over leads to the step that follows it.
proof fn lemma_pass_step(p: ParserModel, whole: int)
    requires
        p.wf(),
        crate::body::chunk_line(p.unparsed()) matches ChunkLine::Size { size, len } && size > 0
            && whole == len + size + 2 && whole <= p.unparsed().len(),
    ensures
        p.consume(whole).wf(),
        p.consume(whole).unparsed() == p.unparsed().skip(whole),
        crate::body::body_step(p, Body::Chunked) == crate::body::body_step(
            p.consume(whole),
            Body::Chunked,
        ),
{
    let s = p.unparsed();
    assert(p.consume(whole).unparsed() =~= s.skip(whole));
    assert(p.consume(crate::body::whole_chunks(s)) == p.consume(whole).consume(
        crate::body::whole_chunks(s.skip(whole)),
    ));
}

/// A whole chunk that is passed over leads to what follows it.
proof fn lemma_pass_over(p: ParserModel, stream: Seq<u8>, reads: Seq<int>, whole: int)
    requires
        p.wf(),
        crate::body::chunk_line(p.unparsed()) matches ChunkLine::Size { size, len } && size > 0
            && whole == len + size + 2 && whole <= p.unparsed().len(),
    ensures
        p.consume(whole).wf(),
        p.consume(whole).unparsed() == p.unparsed().skip(whole),
        drain(p, Body::Chunked, stream, reads) == drain(
            p.consume(whole),
            Body::Chunked,
            stream,
            reads,
        ),
{
    reveal(drain);
    lemma_pass_step(p, whole);
}

/// A line that goes on leads to a read.
proof fn lemma_unfinished(p: ParserModel, stream: Seq<u8>, reads: Seq<int>)
    requires
        p.wf(),
        crate::body::chunk_line(p.unparsed()) == ChunkLine::Unfinished,
    ensures
        ({
            let amount = p.read_amount(stream.len() as int, reads[0]);
            drain(p, Body::Chunked, stream, reads) == if reads.len() > 0 && amount > 0 {
                drain(
                    p.filled(stream.take(amount)).receive(amount),
                    Body::Chunked,
                    stream.skip(amount),
                    reads.skip(1),
                )
            } else {
                Drained::Waiting { p, stream }
            }
        }),
{
    reveal(drain);
    assert(p.consume(0) == p);
}

/// An endless line is an error.
proof fn lemma_endless(p: ParserModel, stream: Seq<u8>, reads: Seq<int>)
    requires
        p.wf(),
        crate::body::chunk_line(p.unparsed()) == ChunkLine::Endless,
    ensures
        drain(p, Body::Chunked, stream, reads) == (Drained::Failed {
            error: BodyError::NoChunkLine { len: p.unparsed().len() as usize },
            p,
            stream,
        }),
{
    reveal(drain);
    assert(p.consume(0) == p);
}

/// The last chunk ends the body.
proof fn lemma_last(p: ParserModel, stream: Seq<u8>, reads: Seq<int>, line: usize)
    requires
        p.wf(),
        crate::body::chunk_line(p.unparsed()) == (ChunkLine::Size { size: 0, len: line }),
    ensures
        drain(p, Body::Chunked, stream, reads) == (Drained::Done {
            p: p.consume(line + 2),
            stream,
        }),
{
    reveal(drain);
    assert(p.consume(0) == p);
}

/// The rest of a chunk is read from the stream.
proof fn lemma_rest_of_chunk(
    p: ParserModel,
    stream: Seq<u8>,
    reads: Seq<int>,
    size: usize,
    line: usize,
) -> (q: ParserModel)
    requires
        p.wf(),
        p.bytes.len() > 0,
        crate::body::chunk_line(p.unparsed()) == (ChunkLine::Size { size, len: line }),
        size > 0,
        size + 2 <= usize::MAX,
        p.unparsed().len() < line + size + 2 <= p.unparsed().len() + stream.len(),
        fits(p, stream.len() as int),
    ensures
        q.wf(),
        q.bytes.len() >= p.bytes.len(),
        q.read == p.read + line + size + 2,
        q.unparsed() == Seq::<u8>::empty(),
        q.write == p.write + (line + size + 2 - p.unparsed().len()),
        drain(p, Body::Chunked, stream, reads) == drain(
            q,
            Body::Chunked,
            stream.skip(line + size + 2 - p.unparsed().len()),
            reads,
        ),
{
    reveal(drain);
    let there = p.unparsed().len() as int;
    let left = line + size + 2 - there;
    assert(p.consume(0) == p);
    let passed = p.consume(there);
    assert(passed.unparsed() =~= Seq::<u8>::empty());
    crate::parser::lemma_grown_len(p.bytes.len() as int, p.write + left);
    lemma_room(passed, left);
    let roomy = passed.ensure_space(left);
    let data = stream.take(left);
    lemma_filled(roomy, data);
    let q = roomy.filled(data).receive(left).consume(left);
    assert(q.unparsed() =~= Seq::<u8>::empty());
    assert(crate::body::body_step(p, Body::Chunked) == (roomy, BodyStep::ReadExact(left as usize)));
    q
}

/// A chunked body starts with a chunk's first line, and behind the first chunk
/// the others follow.
proof fn lemma_wire(chunks: Seq<Chunk>, last: Seq<u8>, after: Seq<u8>) -> (behind: Seq<u8>)
    ensures
        chunks.len() == 0 ==> {
            let full = wire(chunks, last) + after;
            &&& full == last + line_end() + behind
            &&& full.len() == last.len() + 4 + after.len()
            &&& full.skip(last.len() as int + 4) == after
        },
        chunks.len() > 0 ==> {
            let full = wire(chunks, last) + after;
            let whole = chunks[0].digits.len() + 2 + chunks[0].data.len() + 2;
            &&& full == chunks[0].digits + line_end() + behind
            &&& full.len() == whole + wire(chunks.skip(1), last).len() + after.len()
            &&& full.skip(whole as int) == wire(chunks.skip(1), last) + after
        },
{
    let full = wire(chunks, last) + after;
    if chunks.len() == 0 {
        let behind = line_end() + after;
        assert(full =~= last + line_end() + behind);
        assert(full.skip(last.len() as int + 4) =~= after);
        behind
    } else {
        let behind = chunks[0].data + line_end() + wire(chunks.skip(1), last) + after;
        let whole = chunks[0].digits.len() + 2 + chunks[0].data.len() + 2;
        assert(full =~= chunks[0].digits + line_end() + behind);
        assert(full.skip(whole as int) =~= wire(chunks.skip(1), last) + after);
        behind
    }
}

/// A chunked body is discarded: every byte of it counts as dealt with, and
/// nothing beyond it does, however the stream is cut up into reads. The line end
/// that closes the body need not have come by then, so that up to two bytes may
/// be left in the stream. A read is asked for only while the body goes on. Only
/// a line of the longest kind can make it fail, where a read ends just before
/// its newline.
#[verifier::rlimit(40)]
pub proof fn law_chunked_body_is_discarded(
    p: ParserModel,
    chunks: Seq<Chunk>,
    last: Seq<u8>,
    stream: Seq<u8>,
    after: Seq<u8>,
    reads: Seq<int>,
)
    requires
        p.wf(),
        p.bytes.len() > 0,
        forall|i: int| 0 <= i < chunks.len() ==> is_chunk(#[trigger] chunks[i]),
        is_size(last),
        crate::text::digits_value(chars(last), 16) == 0,
        p.unparsed() + stream == wire(chunks, last) + after,
        fits(p, stream.len() as int),
    ensures
        ({
            let drained = drain(p, Body::Chunked, stream, reads);
            ||| discarded(p, drained, wire(chunks, last).len() as int, after)
            ||| has_longest(chunks, last) && is_cut(drained)
        }),
        is_plenty(p, stream, reads) ==> !(drain(p, Body::Chunked, stream, reads) is Waiting),
    decreases stream.len(), chunks.len(), 1int,
{
    let s = p.unparsed();
    let full = wire(chunks, last) + after;
    assert((s + stream).len() == full.len());
    assert(s.is_prefix_of(full)) by {
        assert(s =~= (s + stream).take(s.len() as int));
    }
    let behind = lemma_wire(chunks, last, after);
    if chunks.len() == 0 {
        let n = last.len() as int;
        lemma_line(s, last, behind);
        if s.len() < n + 2 && s.len() == CHUNK_LINE {
            lemma_endless(p, stream, reads);
            assert(s[n] == (s + stream)[n]);
            assert(stream[0] == (s + stream)[n + 1]);
        } else if s.len() < n + 2 {
            lemma_chunked_read(p, chunks, last, stream, after, reads);
        } else {
            lemma_last(p, stream, reads, (n + 2) as usize);
            let q = p.consume(n + 4);
            if n + 4 <= s.len() {
                assert(q.unparsed() + stream =~= (s + stream).skip(n + 4));
            } else {
                assert(stream.skip(n + 4 - s.len()) =~= (s + stream).skip(n + 4));
            }
        }
    } else {
        assert(is_chunk(chunks[0]));
        let digits = chunks[0].digits;
        let n = digits.len() as int;
        let size = chunks[0].data.len() as int;
        let whole = n + 2 + size + 2;
        lemma_line(s, digits, behind);
        assert forall|i: int| 0 <= i < chunks.skip(1).len() implies is_chunk(
            #[trigger] chunks.skip(1)[i],
        ) by {
            assert(chunks.skip(1)[i] == chunks[i + 1]);
        }
        assert(has_longest(chunks.skip(1), last) ==> has_longest(chunks, last)) by {
            if exists|i: int|
                0 <= i < chunks.skip(1).len() && is_longest((#[trigger] chunks.skip(1)[i]).digits) {
                let i = choose|i: int|
                    0 <= i < chunks.skip(1).len() && is_longest(
                        (#[trigger] chunks.skip(1)[i]).digits,
                    );
                assert(is_longest(chunks[i + 1].digits));
            }
        }
        if s.len() < n + 2 && s.len() == CHUNK_LINE {
            lemma_endless(p, stream, reads);
            assert(s[n] == (s + stream)[n]);
            assert(stream[0] == (s + stream)[n + 1]);
            assert(is_longest(chunks[0].digits));
        } else if s.len() < n + 2 {
            lemma_chunked_read(p, chunks, last, stream, after, reads);
        } else if whole <= s.len() {
            lemma_pass_over(p, stream, reads, whole);
            assert(s.skip(whole) + stream =~= (s + stream).skip(whole));
            law_chunked_body_is_discarded(
                p.consume(whole),
                chunks.skip(1),
                last,
                stream,
                after,
                reads,
            );
        } else {
            let left = whole - s.len();
            let q = lemma_rest_of_chunk(p, stream, reads, size as usize, (n + 2) as usize);
            assert(q.unparsed() + stream.skip(left) =~= (s + stream).skip(whole));
            law_chunked_body_is_discarded(
                q,
                chunks.skip(1),
                last,
                stream.skip(left),
                after,
                reads,
            );
        }
    }
}

/// The chunked body of a response is discarded where there is room for it in
/// the buffer and the stream has all of it: every byte of it counts as dealt
/// with, however the stream is cut up into reads. Only a line of the longest
/// kind can make it fail, where a read ends just before its newline.
pub proof fn law_chunked_response_is_discarded(
    p: ParserModel,
    response: ResponseModel,
    chunks: Seq<Chunk>,
    last: Seq<u8>,
    stream: Seq<u8>,
    reads: Seq<int>,
)
    requires
        p.wf(),
        !response.headers.contains_key("Content-Length"@),
        response.headers.contains_key("Transfer-Encoding"@),
        response.headers["Transfer-Encoding"@] == "chunked"@,
        forall|i: int| 0 <= i < chunks.len() ==> is_chunk(#[trigger] chunks[i]),
        is_size(last),
        crate::text::digits_value(chars(last), 16) == 0,
        p.unparsed() + stream == wire(chunks, last),
        p.read + wire(chunks, last).len() <= p.bytes.len(),
        stream.len() <= reads.len(),
        forall|i: int| 0 <= i < reads.len() ==> #[trigger] reads[i] > 0,
    ensures
        crate::body::can_announce(p, response),
        crate::body::announced_body(p, response) matches Ok(body) && match drain(
            p,
            body,
            stream,
            reads,
        ) {
            Drained::Done { p: q, stream: rest } => q.read == p.read + wire(chunks, last).len(),
            failed => has_longest(chunks, last) && is_cut(failed),
        },
{
    let body = wire(chunks, last);
    assert((p.unparsed() + stream).len() == body.len());
    assert(body.len() > 0) by {
        lemma_wire(chunks, last, Seq::empty());
    }
    assert(body + Seq::<u8>::empty() =~= body);
    law_chunked_body_is_discarded(p, chunks, last, stream, Seq::empty(), reads);
}

/// `law_chunked_body_is_discarded` where a line goes on.
proof fn lemma_chunked_read(
    p: ParserModel,
    chunks: Seq<Chunk>,
    last: Seq<u8>,
    stream: Seq<u8>,
    after: Seq<u8>,
    reads: Seq<int>,
)
    requires
        p.wf(),
        p.bytes.len() > 0,
        forall|i: int| 0 <= i < chunks.len() ==> is_chunk(#[trigger] chunks[i]),
        is_size(last),
        crate::text::digits_value(chars(last), 16) == 0,
        p.unparsed() + stream == wire(chunks, last) + after,
        fits(p, stream.len() as int),
        crate::body::chunk_line(p.unparsed()) == ChunkLine::Unfinished,
        p.unparsed().len() < CHUNK_LINE,
        stream.len() > after.len(),
    ensures
        ({
            let drained = drain(p, Body::Chunked, stream, reads);
            ||| discarded(p, drained, wire(chunks, last).len() as int, after)
            ||| has_longest(chunks, last) && is_cut(drained)
        }),
        is_plenty(p, stream, reads) ==> !(drain(p, Body::Chunked, stream, reads) is Waiting),
    decreases stream.len(), chunks.len(), 0int,
{
    lemma_unfinished(p, stream, reads);
    p.unparsed().index_of_first_ensures(10u8);
    let amount = p.read_amount(stream.len() as int, reads[0]);
    if reads.len() > 0 && amount > 0 {
        let data = stream.take(amount);
        lemma_filled(p, data);
        let q = p.filled(data).receive(amount);
        assert(q.unparsed() + stream.skip(amount) =~= p.unparsed() + stream);
        law_chunked_body_is_discarded(
            q,
            chunks,
            last,
            stream.skip(amount),
            after,
            reads.skip(1),
        );
        if is_plenty(p, stream, reads) {
            assert(is_plenty(q, stream.skip(amount), reads.skip(1)));
        }
    }
}

/// A response that gives neither a length nor a transfer encoding has no body,
/// whatever its status and its other fields: nothing is read and nothing counts
/// as dealt with.
pub proof fn law_response_without_body(
    p: ParserModel,
    response: ResponseModel,
    stream: Seq<u8>,
    reads: Seq<int>,
)
    requires
        !response.headers.contains_key("Content-Length"@),
        !response.headers.contains_key("Transfer-Encoding"@),
    ensures
        crate::body::can_announce(p, response),
        crate::body::announced_body(p, response) matches Ok(body) && drain(p, body, stream, reads)
            == (Drained::Done { p, stream }),
{
    reveal(drain);
}

/// A length that is not a number, or that no machine can count to, is refused,
/// whatever else the response says.
pub proof fn law_bad_length_is_refused(p: ParserModel, response: ResponseModel)
    requires
        response.headers.contains_key("Content-Length"@),
        crate::text::number_value(response.headers["Content-Length"@], 10) matches Some(n) ==> n
            > usize::MAX,
    ensures
        crate::body::can_announce(p, response),
        crate::body::announced_body(p, response) == Err::<Body, BodyError>(BodyError::BadLength),
{
}

/// What is left to read of a body with a given length and what has been received
/// of it make up that length, and nothing is left where enough was received. The
/// status and the other fields, a transfer encoding among them, do not count.
pub proof fn law_length_is_made_up(p: ParserModel, response: ResponseModel, length: nat)
    requires
        p.wf(),
        response.headers.contains_key("Content-Length"@),
        crate::text::number_value(response.headers["Content-Length"@], 10) == Some(length),
        length <= usize::MAX,
    ensures
        crate::body::can_announce(p, response) <==> p.read + length <= usize::MAX,
        crate::body::announced_body(p, response) matches Ok(Body::Sized { left }) && (if length
            >= p.unparsed().len() {
            left + p.unparsed().len() == length
        } else {
            left == 0
        }),
{
}

/// A transfer encoding other than the chunked one cannot be announced, and the
/// chunked one can, where no length is given.
pub proof fn law_only_chunked_encoding(p: ParserModel, response: ResponseModel)
    requires
        !response.headers.contains_key("Content-Length"@),
        response.headers.contains_key("Transfer-Encoding"@),
    ensures
        crate::body::can_announce(p, response) <==> response.headers["Transfer-Encoding"@]
            == "chunked"@,
        crate::body::announced_body(p, response) == Ok::<Body, BodyError>(Body::Chunked),
{
}

/// A body with a given length is read in pieces that the buffer was long enough
/// for, and making room for them keeps what was received.
pub proof fn law_pieces_of_a_sized_body(p: ParserModel, left: usize)
    requires
        p.wf(),
        p.bytes.len() > 0,
        left > 0,
        fits(p, left as int),
    ensures
        ({
            let (q, step) = crate::body::body_step(p, Body::Sized { left });
            &&& step matches BodyStep::ReadExact(amount) && (amount == left || amount
                == p.bytes.len()) && amount <= left && amount <= p.bytes.len() && q.write + amount
                <= q.bytes.len()
            &&& q.read == p.read
            &&& q.write == p.write
            &&& q.bytes.take(p.bytes.len() as int) == p.bytes
        }),
{
    let amount = if left <= p.bytes.len() {
        left as int
    } else {
        p.bytes.len() as int
    };
    lemma_room(p, amount);
    assert(p.ensure_space(amount).bytes.take(p.bytes.len() as int) =~= p.bytes);
}

/// What `line` and a newline are, whatever follows them, taken as a chunk's
/// first line. It counts how long the line is, whether it ends in a carriage
/// return and whether a hexadecimal number stands before that.
pub proof fn law_chunk_lines_are_told(line: Seq<u8>, rest: Seq<u8>)
    requires
        !line.contains(10u8),
    ensures
        ({
            let told = crate::body::chunk_line(line + seq![10u8] + rest);
            let digits = line.drop_last();
            let number = crate::text::number_value(decode_utf8(digits), 16);
            &&& line.len() > 16 ==> told == ChunkLine::Long
            &&& line.len() == 0 ==> told == ChunkLine::Empty
            &&& 0 < line.len() <= 16 && line.last() != 13u8 ==> told == ChunkLine::Bare
            &&& 0 < line.len() <= 16 && line.last() == 13u8 && !valid_utf8(digits) ==> told
                == ChunkLine::Garbled
            &&& 0 < line.len() <= 16 && line.last() == 13u8 && valid_utf8(digits) ==> match number {
                Some(n) => told == if n <= usize::MAX {
                    ChunkLine::Size { size: n as usize, len: (line.len() + 1) as usize }
                } else {
                    ChunkLine::NotHex
                },
                None => told == ChunkLine::NotHex,
            }
        }),
        line.len() < 16 ==> crate::body::chunk_line(line) == ChunkLine::Unfinished,
        line.len() >= 16 ==> crate::body::chunk_line(line) == ChunkLine::Endless,
{
    let s = line + seq![10u8] + rest;
    let n = line.len() as int;
    line.index_of_first_ensures(10u8);
    s.index_of_first_ensures(10u8);
    assert(s[n] == 10u8);
    assert(s.contains(10u8));
    assert forall|i: int| 0 <= i < n implies s[i] != 10u8 by {
        assert(s[i] == line[i]);
        assert(line.contains(line[i]));
    }
    assert(s.index_of_first(10u8) == Some(n));
    if n > 0 {
        assert(s[n - 1] == line.last());
        assert(s.take(n - 1) =~= line.drop_last());
    }
}

/// A line that cannot be a chunk's first line makes the body impossible to
/// discard, each with its own error, and nothing is dealt with.
pub proof fn law_bad_chunk_lines_are_refused(p: ParserModel, line: Seq<u8>, rest: Seq<u8>)
    requires
        p.wf(),
        !line.contains(10u8),
        p.unparsed() == line + seq![10u8] + rest,
    ensures
        ({
            let (q, step) = crate::body::body_step(p, Body::Chunked);
            let digits = line.drop_last();
            let number = crate::text::number_value(decode_utf8(digits), 16);
            &&& line.len() > 16 ==> q == p && step == BodyStep::Failed(BodyError::LongChunkLine)
            &&& line.len() == 0 ==> q == p && step == BodyStep::Stuck
            &&& 0 < line.len() <= 16 && line.last() != 13u8 ==> q == p && step == BodyStep::Failed(
                BodyError::MissingCarriageReturn,
            )
            &&& 0 < line.len() <= 16 && line.last() == 13u8 && !valid_utf8(digits) ==> q == p
                && step == BodyStep::Stuck
            &&& 0 < line.len() <= 16 && line.last() == 13u8 && valid_utf8(digits) && (number is None
                || number.unwrap() > usize::MAX) ==> q == p && step == BodyStep::Failed(
                BodyError::BadChunkSize,
            )
        }),
{
    law_chunk_lines_are_told(line, rest);
    assert(p.consume(0) == p);
}

/// Where no line has ended, a short one is waited for and a long one is refused.
pub proof fn law_lines_without_end(p: ParserModel)
    requires
        p.wf(),
        !p.unparsed().contains(10u8),
    ensures
        crate::body::body_step(p, Body::Chunked) == if p.unparsed().len() < 16 {
            (p, BodyStep::Read)
        } else {
            (
                p,
                BodyStep::Failed(BodyError::NoChunkLine { len: p.unparsed().len() as usize }),
            )
        },
{
    law_chunk_lines_are_told(p.unparsed(), Seq::empty());
    assert(p.consume(0) == p);
}

/// A chunk that has been received as a whole, with the line end behind it, is
/// passed over: what follows it decides the next step.
pub proof fn law_whole_chunk_is_passed_over(p: ParserModel, chunk: Chunk, rest: Seq<u8>)
    requires
        p.wf(),
        is_chunk(chunk),
        chunk.data.len() <= usize::MAX,
        p.unparsed() == chunk.digits + line_end() + chunk.data + line_end() + rest,
    ensures
        ({
            let whole = chunk.digits.len() + 2 + chunk.data.len() + 2;
            &&& p.consume(whole as int).unparsed() == rest
            &&& crate::body::body_step(p, Body::Chunked) == crate::body::body_step(
                p.consume(whole as int),
                Body::Chunked,
            )
        }),
{
    let s = p.unparsed();
    let behind = chunk.data + line_end() + rest;
    let whole = (chunk.digits.len() + 2 + chunk.data.len() + 2) as int;
    assert(s =~= chunk.digits + line_end() + behind);
    lemma_line(s, chunk.digits, behind);
    assert(s.skip(whole) =~= rest);
    lemma_pass_step(p, whole);
}

/// Of a chunk that has been received in part, exactly the rest is asked for, up
/// to the line end behind it, and all that was received counts as dealt with.
pub proof fn law_rest_of_chunk_is_asked_for(p: ParserModel, digits: Seq<u8>, part: Seq<u8>)
    requires
        p.wf(),
        p.bytes.len() > 0,
        is_size(digits),
        p.unparsed() == digits + line_end() + part,
        ({
            let size = crate::text::digits_value(chars(digits), 16);
            &&& 0 < size
            &&& size + 2 <= usize::MAX
            &&& part.len() < size + 2
            &&& fits(p, size + 2 - part.len())
        }),
    ensures
        ({
            let (q, step) = crate::body::body_step(p, Body::Chunked);
            let size = crate::text::digits_value(chars(digits), 16);
            &&& step matches BodyStep::ReadExact(amount) && amount + part.len() == size + 2
                && q.write + amount <= q.bytes.len()
            &&& q.read == p.write
            &&& q.write == p.write
            &&& q.bytes.take(p.bytes.len() as int) == p.bytes
        }),
{
    let s = p.unparsed();
    let size = crate::text::digits_value(chars(digits), 16) as int;
    lemma_line(s, digits, part);
    assert(p.consume(0) == p);
    let left = size + 2 - part.len();
    let passed = p.consume(s.len() as int);
    assert(passed.wf());
    lemma_room(passed, left);
    assert(passed.ensure_space(left).bytes.take(p.bytes.len() as int) =~= p.bytes);
    assert(p.can_hold(left)) by {
        crate::parser::lemma_grown_len(p.bytes.len() as int, p.write + left);
    }
}

/// What was asked for and read counts as received and as dealt with, once, and
/// of a body with a given length that much less is left.
pub proof fn law_reads_are_counted_once(p: ParserModel, body: Body, amount: int)
    requires
        0 <= amount,
        body matches Body::Sized { left } ==> amount <= left,
    ensures
        ({
            let (q, rest) = crate::body::body_read(p, body, amount);
            &&& q.read == p.read + amount
            &&& q.write == p.write + amount
            &&& q.bytes == p.bytes
            &&& match body {
                Body::Sized { left } => rest matches Body::Sized { left: less } && less + amount
                    == left,
                Body::Chunked => rest == Body::Chunked,
                Body::Absent => rest == Body::Absent,
            }
        }),
{
}

/// A body with a given length is done with where nothing of it is left. It
/// cannot be gone on with where something is left and the buffer is empty or
/// cannot hold the next piece.
pub proof fn law_ends_of_a_sized_body(p: ParserModel, left: usize)
    ensures
        left == 0 ==> crate::body::body_step(p, Body::Sized { left }) == (p, BodyStep::Done),
        left > 0 && p.bytes.len() == 0 ==> crate::body::body_step(p, Body::Sized { left }) == (
            p,
            BodyStep::Stuck,
        ),
        left > 0 && left <= p.bytes.len() && !p.can_hold(left as int) ==> crate::body::body_step(
            p,
            Body::Sized { left },
        ) == (p, BodyStep::Stuck),
        left > p.bytes.len() && !p.can_hold(p.bytes.len() as int) ==> crate::body::body_step(
            p,
            Body::Sized { left },
        ) == (p, BodyStep::Stuck),
{
}

/// The last chunk's line ends the body, with the line end behind it whether or
/// not that has come, and nothing else counts as dealt with.
pub proof fn law_last_chunk_ends_the_body(p: ParserModel, digits: Seq<u8>, rest: Seq<u8>)
    requires
        p.wf(),
        is_size(digits),
        crate::text::digits_value(chars(digits), 16) == 0,
        p.unparsed() == digits + line_end() + rest,
    ensures
        ({
            let (q, step) = crate::body::body_step(p, Body::Chunked);
            &&& step == BodyStep::Done
            &&& q.read == p.read + digits.len() + 4
            &&& q.write == p.write
            &&& q.bytes == p.bytes
        }),
{
    lemma_line(p.unparsed(), digits, rest);
    assert(p.consume(0) == p);
}

} // verus!
