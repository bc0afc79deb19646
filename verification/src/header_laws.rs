//! What reading a header does to the stream it comes from, however the stream
//! is cut up into reads and however long the buffer is. The buffer doubles at
//! each read that leaves the header unfinished; here nothing bounds its length.

use crate::head::HeadModel;
use crate::parser::{HeaderError, HeaderOutcome, ParserModel, MAX_HEADERS};
use crate::response::ResponseModel;
use vstd::prelude::*;

verus! {

/// How the reading of a header ended, with the buffer and what had not been
/// read from the stream.
pub enum Received {
    /// The header has been read.
    Done { p: ParserModel, response: ResponseModel, stream: Seq<u8> },
    /// Another read was asked for.
    Waiting { p: ParserModel, stream: Seq<u8> },
    /// No header can be read.
    Failed(HeaderError),
    /// The value of a field is not text.
    Undecodable,
}

/// Reads a header from a stream where `errors` heads were refused so far.
/// `reads` are the numbers of bytes that the stream has at hand at one read
/// after the other.
pub open spec fn receive_header(
    p: ParserModel,
    errors: int,
    stream: Seq<u8>,
    reads: Seq<int>,
) -> Received
    decreases reads.len(),
{
    if reads.len() == 0 {
        Received::Waiting { p, stream }
    } else {
        let amount = p.read_amount(stream.len() as int, reads[0]);
        let rest = stream.skip(amount);
        let (q, refused, outcome) = crate::parser::header_step(
            p.filled(stream.take(amount)),
            errors,
            amount,
        );
        match outcome {
            HeaderOutcome::More => receive_header(q, refused, rest, reads.skip(1)),
            HeaderOutcome::Done(response) => Received::Done { p: q, response, stream: rest },
            HeaderOutcome::Failed(error) => Received::Failed(error),
            HeaderOutcome::Undecodable => Received::Undecodable,
        }
    }
}

/// Whether some of a head has been received and not dealt with, there is room
/// for more, and the stream goes on with the rest of it and `after` behind it.
pub open spec fn is_coming(p: ParserModel, stream: Seq<u8>, head: Seq<u8>, after: Seq<u8>) -> bool {
    &&& 0 <= p.read <= p.write < p.bytes.len()
    &&& p.unparsed().len() < head.len()
    &&& p.unparsed() + stream == head + after
}

/// A header is read to its last byte however the stream is cut up into reads
/// and however short the buffer is at first: it gives the response that its head
/// stands for, and what follows the head is left. Another read is asked for only
/// while the head goes on, so that as many reads as the head has bytes are
/// enough.
pub proof fn law_header_is_read(
    p: ParserModel,
    errors: int,
    head: Seq<u8>,
    stream: Seq<u8>,
    after: Seq<u8>,
    reads: Seq<int>,
)
    requires
        crate::head::is_head(head, MAX_HEADERS as nat),
        crate::head::parsed_head(head, MAX_HEADERS as nat).is_text(),
        is_coming(p, stream, head, after),
        forall|i: int| 0 <= i < reads.len() ==> #[trigger] reads[i] > 0,
    ensures
        match receive_header(p, errors, stream, reads) {
            Received::Done { p: q, response, stream: left } => {
                &&& response == crate::parser::head_response(
                    crate::head::parsed_head(head, MAX_HEADERS as nat),
                )
                &&& q.read == p.read + head.len()
                &&& q.read <= q.write <= q.bytes.len()
                &&& q.unparsed() + left == after
            },
            Received::Waiting { p: q, stream: left } => {
                &&& is_coming(q, left, head, after)
                &&& p.unparsed().len() + reads.len() < head.len()
            },
            _ => false,
        },
    decreases reads.len(),
{
    if reads.len() > 0 {
        assert((p.unparsed() + stream).len() == (head + after).len());
        assert(reads[0] > 0);
        let amount = p.read_amount(stream.len() as int, reads[0]);
        let data = stream.take(amount);
        let rest = stream.skip(amount);
        let q = p.filled(data).receive(amount);
        let s = q.unparsed();
        assert(s =~= p.unparsed() + data);
        assert(s + rest =~= head + after) by {
            assert(data + rest =~= stream);
        }
        assert(s =~= (head + after).take(s.len() as int)) by {
            assert(s =~= (s + rest).take(s.len() as int));
        }
        if s.len() < head.len() {
            assert(s =~= head.take(s.len() as int));
            let (r, refused, outcome) = crate::parser::header_step(
                p.filled(data),
                errors,
                amount,
            );
            assert(crate::head::parsed_head(s, MAX_HEADERS as nat) == HeadModel::Partial);
            assert(outcome == HeaderOutcome::More);
            assert(r.unparsed() =~= s);
            law_header_is_read(r, refused, head, rest, after, reads.skip(1));
        } else {
            let n = head.len() as int;
            assert(s =~= head + s.skip(n)) by {
                assert(s.take(n) =~= head);
            }
            assert(crate::head::parsed_head(s, MAX_HEADERS as nat) == crate::head::parsed_head(
                head,
                MAX_HEADERS as nat,
            ));
            assert(q.consume(n).unparsed() + rest =~= (s + rest).skip(n));
            assert((head + after).skip(n) =~= after);
        }
    }
}

/// Neither the buffer nor the way in which a stream is cut up into reads counts:
/// two readers of one header get the same response and take the same bytes.
pub proof fn law_cutting_does_not_count(
    p1: ParserModel,
    p2: ParserModel,
    head: Seq<u8>,
    after: Seq<u8>,
    reads1: Seq<int>,
    reads2: Seq<int>,
)
    requires
        crate::head::is_head(head, MAX_HEADERS as nat),
        crate::head::parsed_head(head, MAX_HEADERS as nat).is_text(),
        p1.bytes.len() > 0,
        p2.bytes.len() > 0,
        p1.read == 0 && p1.write == 0,
        p2.read == 0 && p2.write == 0,
        head.len() <= reads1.len(),
        head.len() <= reads2.len(),
        forall|i: int| 0 <= i < reads1.len() ==> #[trigger] reads1[i] > 0,
        forall|i: int| 0 <= i < reads2.len() ==> #[trigger] reads2[i] > 0,
    ensures
        ({
            let first = receive_header(p1, 0, head + after, reads1);
            let second = receive_header(p2, 0, head + after, reads2);
            &&& first is Done && second is Done
            &&& first->response == second->response
            &&& first->Done_p.read == head.len() && second->Done_p.read == head.len()
        }),
{
    assert(p1.unparsed() + (head + after) =~= head + after);
    assert(p2.unparsed() + (head + after) =~= head + after);
    law_header_is_read(p1, 0, head, head + after, after, reads1);
    law_header_is_read(p2, 0, head, head + after, after, reads2);
}

} // verus!
