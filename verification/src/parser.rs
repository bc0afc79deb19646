//! The buffer in which responses are received: reading a response's header and
//! discarding its body.

use crate::head::{collect_fields, parse_head, Head, HeadModel};
use crate::response::{Response, ResponseModel};
use crate::text::utf8_text;
use vstd::prelude::*;
use vstd::utf8::*;

verus! {

/// How many header fields a response may have.
pub const MAX_HEADERS: usize = 32;

/// How many times a head that the HTTP parser refuses is given another chance,
/// with more bytes.
pub const PARSE_RETRIES: usize = 2;

/// The text that stands for a sample that is not text.
pub const NO_SAMPLE: &'static str = "NON-UTF8 DATA SAMPLE";

/// A buffer: `bytes[..write]` has been received, and `bytes[..read]` of that
/// has been dealt with.
pub struct ParserModel {
    pub bytes: Seq<u8>,
    pub read: int,
    pub write: int,
}

/// The length that a buffer of `len` bytes gets by doubling until it has at
/// least `need` bytes.
pub open spec fn grown_len(len: int, need: int) -> int
    decreases
            if need > len {
                need - len
            } else {
                0
            },
{
    if need <= len || len <= 0 {
        len
    } else {
        grown_len(len * 2, need)
    }
}

/// `bytes` with zeros behind them up to the length `len`.
pub open spec fn padded(bytes: Seq<u8>, len: int) -> Seq<u8> {
    bytes + Seq::new((len - bytes.len()) as nat, |i: int| 0u8)
}

impl ParserModel {
    /// The received part lies within the buffer, and what has been dealt with
    /// lies within the received part.
    pub open spec fn wf(self) -> bool {
        0 <= self.read <= self.write <= self.bytes.len() <= isize::MAX
    }

    /// What has been received and not dealt with.
    pub open spec fn unparsed(self) -> Seq<u8> {
        self.bytes.subrange(self.read, self.write)
    }

    /// With `amount` more bytes dealt with.
    pub open spec fn consume(self, amount: int) -> ParserModel {
        ParserModel { read: self.read + amount, ..self }
    }

    /// With `amount` more bytes received.
    pub open spec fn receive(self, amount: int) -> ParserModel {
        ParserModel { write: self.write + amount, ..self }
    }

    /// Whether the buffer can be made large enough for `space` more bytes.
    pub open spec fn can_hold(self, space: int) -> bool {
        ||| self.write + space <= self.bytes.len()
        ||| self.bytes.len() > 0 && grown_len(self.bytes.len() as int, self.write + space)
            <= isize::MAX
    }

    /// With `data` written behind the bytes received before, and not received
    /// yet.
    pub open spec fn filled(self, data: Seq<u8>) -> ParserModel {
        ParserModel {
            bytes: self.bytes.take(self.write) + data + self.bytes.skip(self.write + data.len()),
            ..self
        }
    }

    /// How many bytes a read gives where the stream holds `held` bytes and has
    /// `offered` of them at hand.
    pub open spec fn read_amount(self, held: int, offered: int) -> int {
        let room = self.bytes.len() - self.write;
        let most = if held < room {
            held
        } else {
            room
        };
        if offered < most {
            offered
        } else {
            most
        }
    }

    /// With room for `space` more bytes.
    pub open spec fn ensure_space(self, space: int) -> ParserModel {
        ParserModel {
            bytes: padded(
                self.bytes,
                grown_len(self.bytes.len() as int, self.write + space),
            ),
            ..self
        }
    }
}

/// The receive buffer of a connection.
#[derive(Debug)]
pub struct Parser {
    pub bytes: Vec<u8>,
    pub read_idx: usize,
    pub write_idx: usize,
}

impl View for Parser {
    type V = ParserModel;

    open spec fn view(&self) -> ParserModel {
        ParserModel {
            bytes: self.bytes@,
            read: self.read_idx as int,
            write: self.write_idx as int,
        }
    }
}

/// The peer closed the connection where more bytes were needed.
#[derive(Debug, Clone, Copy, PartialEq, Eq, Structural)]
pub struct UnexpectedEof;

/// Why no header could be read.
#[derive(Debug, Clone, Copy, PartialEq, Eq, Structural)]
pub enum HeaderError {
    /// The peer closed the connection before the end of the header.
    UnexpectedEof,
    /// What the peer sent is not an HTTP response.
    Malformed,
}

/// What follows a read while a response's header is being received.
#[derive(Debug)]
pub enum HeaderStep {
    /// The header goes on: read more.
    More,
    /// The header is complete.
    Done(Response),
    /// No header can be read.
    Failed(HeaderError),
    /// The header is complete and the value of a field in it is not text.
    Undecodable,
}

/// What follows a read while a response's header is being received.
pub enum HeaderOutcome {
    More,
    Done(ResponseModel),
    Failed(HeaderError),
    Undecodable,
}

impl View for HeaderStep {
    type V = HeaderOutcome;

    open spec fn view(&self) -> HeaderOutcome {
        match *self {
            HeaderStep::More => HeaderOutcome::More,
            HeaderStep::Done(response) => HeaderOutcome::Done(response@),
            HeaderStep::Failed(error) => HeaderOutcome::Failed(error),
            HeaderStep::Undecodable => HeaderOutcome::Undecodable,
        }
    }
}

/// The response that a whole head stands for.
pub open spec fn head_response(head: HeadModel) -> ResponseModel {
    ResponseModel {
        status: head->code.unwrap(),
        headers: crate::head::field_map(head->fields),
    }
}

/// The buffer, the number of refused heads so far and the next step, once the
/// HTTP parser has looked at what has not been dealt with:
/// - a head that it refuses is tried again with more bytes, and after
///   `PARSE_RETRIES` such trials the response is malformed;
/// - where the head goes on, the buffer doubles;
/// - a whole head is dealt with and gives the response.
pub open spec fn after_head(p: ParserModel, errors: int, head: HeadModel) -> (
    ParserModel,
    int,
    HeaderOutcome,
) {
    match head {
        HeadModel::Invalid => if errors < PARSE_RETRIES {
            (p, errors + 1, HeaderOutcome::More)
        } else {
            (p, errors, HeaderOutcome::Failed(HeaderError::Malformed))
        },
        HeadModel::Partial => {
            let bytes = padded(p.bytes, p.bytes.len() as int * 2);
            (ParserModel { bytes, ..p }, errors, HeaderOutcome::More)
        },
        HeadModel::Complete { consumed, code, fields } => {
            (p.consume(consumed), errors, HeaderOutcome::Done(head_response(head)))
        },
    }
}

/// The buffer, the number of refused heads so far and the next step, once a read
/// put `amount` bytes behind those received before.
pub open spec fn header_step(p: ParserModel, errors: int, amount: int) -> (
    ParserModel,
    int,
    HeaderOutcome,
) {
    if amount == 0 {
        (p, errors, HeaderOutcome::Failed(HeaderError::UnexpectedEof))
    } else {
        let q = p.receive(amount);
        let head = crate::head::parsed_head(q.unparsed(), MAX_HEADERS as nat);
        if head.is_text() {
            after_head(q, errors, head)
        } else {
            (q, errors, HeaderOutcome::Undecodable)
        }
    }
}

pub(crate) proof fn lemma_grown_len(len: int, need: int)
    requires
        0 < len,
    ensures
        grown_len(len, need) >= len,
        grown_len(len, need) >= need,
        need <= len ==> grown_len(len, need) == len,
        need > len ==> grown_len(len, need) <= 2 * need,
    decreases
            if need > len {
                need - len
            } else {
                0
            },
{
    if need > len {
        lemma_grown_len(len * 2, need);
    }
}

impl Parser {
    /// An empty buffer of `size` bytes.
    pub fn new(size: usize) -> (res: Self)
        requires
            size <= isize::MAX,
        ensures
            res@.wf(),
            res@ == (ParserModel { bytes: Seq::new(size as nat, |i: int| 0u8), read: 0, write: 0 }),
            res.bytes@.len() == size,
            res.read_idx == 0,
            res.write_idx == 0,
    {
        let res = Parser { bytes: vec![0; size], read_idx: 0, write_idx: 0 };
        assert(res@.bytes =~= Seq::new(size as nat, |i: int| 0u8));
        res
    }

    /// Forgets everything received; the buffer keeps its length.
    pub fn reset(&mut self)
        ensures
            final(self)@ == (ParserModel { bytes: old(self)@.bytes, read: 0, write: 0 }),
            final(self).bytes@ == old(self).bytes@,
            final(self).read_idx == 0,
            final(self).write_idx == 0,
    {
        self.read_idx = 0;
        self.write_idx = 0;
    }

    /// Whether the buffer can be made large enough for `space` more bytes.
    pub fn can_hold(&self, space: usize) -> (res: bool)
        requires
            self@.wf(),
        ensures
            res == self@.can_hold(space as int),
    {
        if space <= self.bytes.len() - self.write_idx {
            return true;
        }
        if self.bytes.len() == 0 {
            return false;
        }
        let limit: usize = isize::MAX as usize;
        if space > limit - self.write_idx {
            proof {
                lemma_grown_len(self.bytes@.len() as int, self.write_idx + space);
            }
            return false;
        }
        let need: usize = self.write_idx + space;
        let mut len: usize = self.bytes.len();
        while len < need
            invariant
                0 < len <= limit,
                limit == isize::MAX,
                need <= limit,
                need > self.bytes@.len() > 0,
                need == self@.write + space,
                grown_len(len as int, need as int) == grown_len(
                    self.bytes@.len() as int,
                    need as int,
                ),
            decreases
                    if need > len {
                        need - len
                    } else {
                        0
                    },
        {
            if len > limit / 2 {
                proof {
                    lemma_grown_len(len * 2, need as int);
                }
                return false;
            }
            len = len * 2;
        }
        true
    }

    /// Doubles the buffer until it has room for `space` more bytes.
    pub fn ensure_space(&mut self, space: usize)
        requires
            old(self)@.wf(),
            old(self)@.can_hold(space as int),
        ensures
            final(self)@ == old(self)@.ensure_space(space as int),
            final(self)@.wf(),
            final(self)@.write + space <= final(self)@.bytes.len(),
            final(self).read_idx == old(self).read_idx,
            final(self).write_idx == old(self).write_idx,
            final(self).bytes@.len() >= old(self).bytes@.len(),
            final(self).bytes@.take(old(self).bytes@.len() as int) == old(self).bytes@,
            old(self).write_idx + space <= old(self).bytes@.len() ==> final(self).bytes@
                == old(self).bytes@,
    {
        proof {
            if self.bytes@.len() > 0 {
                lemma_grown_len(self.bytes@.len() as int, self.write_idx + space);
            }
        }
        let need: usize = self.write_idx + space;
        let ghost before = self@;
        let ghost target = grown_len(before.bytes.len() as int, need as int);
        assert(padded(before.bytes, before.bytes.len() as int) =~= before.bytes);
        while need > self.bytes.len()
            invariant
                need == before.write + space,
                self@.read == before.read,
                self@.write == before.write,
                target == grown_len(before.bytes.len() as int, need as int),
                target <= isize::MAX,
                need > self.bytes@.len() ==> self.bytes@.len() > 0,
                before.bytes.len() <= self.bytes@.len() <= target,
                grown_len(self.bytes@.len() as int, need as int) == target,
                self.bytes@ == padded(before.bytes, self.bytes@.len() as int),
            decreases
                    if need > self.bytes@.len() {
                        need - self.bytes@.len()
                    } else {
                        0
                    },
        {
            let ghost len = self.bytes@.len() as int;
            let ghost prev = self.bytes@;
            proof {
                lemma_grown_len(len * 2, need as int);
            }
            self.bytes.resize(self.bytes.len() * 2, 0);
            assert(self.bytes@.subrange(0, len) == prev);
            assert forall|i: int| 0 <= i < self.bytes@.len() implies self.bytes@[i] == padded(
                before.bytes,
                len * 2,
            )[i] by {
                if i < len {
                    assert(self.bytes@.subrange(0, len)[i] == prev[i]);
                }
            }
            assert(self.bytes@ =~= padded(before.bytes, len * 2));
        }
    }

    /// What has been received and not dealt with.
    pub fn unparsed(&self) -> (res: &[u8])
        requires
            self@.wf(),
        ensures
            res@ == self@.unparsed(),
            res@ == self.bytes@.subrange(self.read_idx as int, self.write_idx as int),
    {
        vstd::slice::slice_subrange(self.bytes.as_slice(), self.read_idx, self.write_idx)
    }

    /// Up to `bytes_to_sample` bytes of what has not been dealt with, as text.
    pub fn sample(&self, bytes_to_sample: usize) -> (res: &str)
        requires
            self@.wf(),
        ensures
            res@ == {
                let unparsed = self@.unparsed();
                let part = if bytes_to_sample < unparsed.len() {
                    unparsed.take(bytes_to_sample as int)
                } else {
                    unparsed
                };
                if valid_utf8(part) {
                    decode_utf8(part)
                } else {
                    NO_SAMPLE@
                }
            },
    {
        let unparsed = self.unparsed();
        let upper: usize = if bytes_to_sample < unparsed.len() {
            bytes_to_sample
        } else {
            unparsed.len()
        };
        assert(unparsed@.subrange(0, unparsed@.len() as int) =~= unparsed@);
        match utf8_text(vstd::slice::slice_subrange(unparsed, 0, upper)) {
            Some(text) => text,
            None => NO_SAMPLE,
        }
    }

    /// Marks `amount` more bytes as dealt with.
    pub fn consume(&mut self, amount: usize)
        requires
            old(self)@.read + amount <= usize::MAX,
        ensures
            final(self)@ == old(self)@.consume(amount as int),
            final(self).bytes@ == old(self).bytes@,
            final(self).read_idx == old(self).read_idx + amount,
            final(self).write_idx == old(self).write_idx,
    {
        self.read_idx = self.read_idx + amount;
    }

    /// Notes that a read put `amount` bytes behind those received before. A
    /// read of nothing means that the peer closed the connection.
    pub fn read(&mut self, amount: usize) -> (res: Result<usize, UnexpectedEof>)
        requires
            old(self)@.write + amount <= old(self).bytes.len(),
        ensures
            amount == 0 ==> res == Err::<usize, UnexpectedEof>(UnexpectedEof) && final(self)@
                == old(self)@,
            amount > 0 ==> res == Ok::<usize, UnexpectedEof>(amount) && final(self)@ == old(
                self,
            )@.receive(amount as int),
            final(self).bytes@ == old(self).bytes@,
            final(self).read_idx == old(self).read_idx,
            final(self).write_idx == old(self).write_idx + amount,
    {
        if amount == 0 {
            return Err(UnexpectedEof);
        }
        self.write_idx = self.write_idx + amount;
        Ok(amount)
    }

    /// Goes on from what the HTTP parser made of the bytes that have not been
    /// dealt with.
    pub fn parsed_header(&mut self, head: Head, parse_errors: &mut usize) -> (res: HeaderStep)
        requires
            old(self)@.wf(),
            old(self)@.bytes.len() * 2 <= isize::MAX,
            head@.within(old(self)@.unparsed().len() as int),
            head@.is_text(),
        ensures
            final(self)@.wf(),
            (final(self)@, *final(parse_errors) as int, res@) == after_head(
                old(self)@,
                *old(parse_errors) as int,
                head@,
            ),
            final(self).write_idx == old(self).write_idx,
            match head {
                Head::Invalid => {
                    &&& *old(parse_errors) < 2 ==> res is More && *final(parse_errors) == *old(
                        parse_errors,
                    ) + 1
                    &&& *old(parse_errors) >= 2 ==> res@ == HeaderOutcome::Failed(
                        HeaderError::Malformed,
                    )
                    &&& final(self).bytes@ == old(self).bytes@
                    &&& final(self).read_idx == old(self).read_idx
                },
                Head::Partial => {
                    &&& res is More
                    &&& *final(parse_errors) == *old(parse_errors)
                    &&& final(self).bytes@.len() == 2 * old(self).bytes@.len()
                    &&& final(self).bytes@.take(old(self).bytes@.len() as int) == old(self).bytes@
                    &&& final(self).read_idx == old(self).read_idx
                },
                Head::Complete { consumed, code, fields } => {
                    &&& res matches HeaderStep::Done(response) && code == Some(response.status)
                    &&& *final(parse_errors) == *old(parse_errors)
                    &&& final(self).bytes@ == old(self).bytes@
                    &&& final(self).read_idx == old(self).read_idx + consumed
                },
            },
    {
        match head {
            Head::Invalid => {
                if *parse_errors < PARSE_RETRIES {
                    *parse_errors = *parse_errors + 1;
                    HeaderStep::More
                } else {
                    HeaderStep::Failed(HeaderError::Malformed)
                }
            },
            Head::Partial => {
                let ghost before = self.bytes@;
                self.bytes.resize(self.bytes.len() * 2, 0);
                proof {
                    let len = before.len() as int;
                    assert forall|i: int| 0 <= i < len implies self.bytes@[i] == before[i] by {
                        assert(self.bytes@.subrange(0, len)[i] == before[i]);
                    }
                    assert(self.bytes@ =~= padded(before, len * 2));
                    assert(self.bytes@.take(len) =~= before);
                }
                HeaderStep::More
            },
            Head::Complete { consumed, code, fields } => {
                let status: u16 = match code {
                    Some(status) => status,
                    None => 0,
                };
                let headers = collect_fields(&fields);
                self.consume(consumed);
                HeaderStep::Done(Response { status, headers })
            },
        }
    }

    /// Goes on with a response's header after a read put `amount` bytes behind
    /// those received before. `parse_errors` is the number of heads that were
    /// refused so far; a new header starts with none.
    pub fn read_header(&mut self, amount: usize, parse_errors: &mut usize) -> (res: HeaderStep)
        requires
            old(self)@.wf(),
            old(self)@.write + amount <= old(self).bytes.len(),
            old(self)@.bytes.len() * 2 <= isize::MAX,
        ensures
            final(self)@.wf(),
            (final(self)@, *final(parse_errors) as int, res@) == header_step(
                old(self)@,
                *old(parse_errors) as int,
                amount as int,
            ),
            amount > 0 ==> {
                let received = old(self)@.receive(amount as int).unparsed();
                crate::head::parsed_head(received, MAX_HEADERS as nat).within(received.len() as int)
            },
            res is Done ==> crate::head::is_head(
                old(self)@.receive(amount as int).unparsed().take(
                    final(self)@.read - old(self)@.read,
                ),
                MAX_HEADERS as nat,
            ),
    {
        if self.read(amount).is_err() {
            return HeaderStep::Failed(HeaderError::UnexpectedEof);
        }
        let head = match parse_head(self.unparsed(), MAX_HEADERS) {
            Ok(head) => head,
            Err(_) => Head::Invalid,
        };
        if !head.is_text() {
            return HeaderStep::Undecodable;
        }
        self.parsed_header(head, parse_errors)
    }
}

/// Reading a header keeps what was received: where the header goes on, nothing
/// of it is dealt with, and behind a whole head there follows what was received
/// behind it.
pub proof fn law_header_keeps_what_follows(p: ParserModel, errors: int, head: HeadModel)
    requires
        p.wf(),
        head.within(p.unparsed().len() as int),
    ensures
        after_head(p, errors, head).0.unparsed() == match head {
            HeadModel::Complete { consumed, code, fields } => p.unparsed().skip(consumed),
            _ => p.unparsed(),
        },
        after_head(p, errors, head).0.write == p.write,
{
    let q = after_head(p, errors, head).0;
    match head {
        HeadModel::Complete { consumed, code, fields } => {
            assert(q.unparsed() =~= p.unparsed().skip(consumed));
        },
        _ => {
            assert(q.unparsed() =~= p.unparsed());
        },
    }
}

/// The buffer, the number of refused heads and the next step after the reads of
/// one header. Of each read there is the number of bytes that it gave and what
/// the HTTP parser made of the bytes that had not been dealt with then.
pub open spec fn after_reads(p: ParserModel, reads: Seq<(int, HeadModel)>) -> (
    ParserModel,
    int,
    HeaderOutcome,
)
    decreases reads.len(),
{
    if reads.len() == 0 {
        (p, 0, HeaderOutcome::More)
    } else {
        let (amount, head) = reads.last();
        let (q, errors, _) = after_reads(p, reads.drop_last());
        after_head(q.receive(amount), errors, head)
    }
}

/// How many of the reads ended with a refused head.
pub open spec fn refused(reads: Seq<(int, HeadModel)>) -> nat {
    reads.filter(|read: (int, HeadModel)| read.1 == HeadModel::Invalid).len()
}

/// Whether none of the reads ended with a whole head.
pub open spec fn none_whole(reads: Seq<(int, HeadModel)>) -> bool {
    forall|i: int| 0 <= i < reads.len() ==> !((#[trigger] reads[i]).1 is Complete)
}

proof fn lemma_none_whole_before(reads: Seq<(int, HeadModel)>)
    requires
        none_whole(reads),
        reads.len() > 0,
    ensures
        none_whole(reads.drop_last()),
        !(reads.last().1 is Complete),
{
    let before = reads.drop_last();
    assert forall|i: int| 0 <= i < before.len() implies !((#[trigger] before[i]).1 is Complete) by {
        assert(before[i] == reads[i]);
    }
}

/// As long as no head is whole, a header goes on until more than
/// `PARSE_RETRIES` heads were refused, and then it is malformed.
pub proof fn law_malformed_after_retries(p: ParserModel, reads: Seq<(int, HeadModel)>)
    requires
        none_whole(reads),
        reads.len() > 0 ==> refused(reads.drop_last()) <= PARSE_RETRIES,
    ensures
        after_reads(p, reads).2 == if refused(reads) <= PARSE_RETRIES {
            HeaderOutcome::More
        } else {
            HeaderOutcome::Failed(HeaderError::Malformed)
        },
        refused(reads) <= PARSE_RETRIES ==> after_reads(p, reads).1 == refused(reads),
    decreases reads.len(),
{
    reveal(Seq::filter);
    if reads.len() > 0 {
        let before = reads.drop_last();
        lemma_none_whole_before(reads);
        law_malformed_after_retries(p, before);
    }
}

/// A whole head gives the response that it stands for and is dealt with,
/// whatever the reads before gave and however long the buffer has become.
pub proof fn law_whole_head_gives_response(p: ParserModel, reads: Seq<(int, HeadModel)>)
    requires
        reads.len() > 0,
        reads.last().1 is Complete,
        none_whole(reads.drop_last()),
        refused(reads.drop_last()) <= PARSE_RETRIES,
    ensures
        ({
            let (q, errors, outcome) = after_reads(p, reads);
            &&& outcome == HeaderOutcome::Done(head_response(reads.last().1))
            &&& q.read == p.read + reads.last().1->consumed
            &&& errors == refused(reads.drop_last())
        }),
{
    let before = reads.drop_last();
    lemma_refused_before(before);
    law_malformed_after_retries(p, before);
    lemma_read_kept(p, before);
}

proof fn lemma_refused_before(reads: Seq<(int, HeadModel)>)
    ensures
        reads.len() > 0 ==> refused(reads.drop_last()) <= refused(reads),
{
    reveal(Seq::filter);
}

proof fn lemma_read_kept(p: ParserModel, reads: Seq<(int, HeadModel)>)
    requires
        none_whole(reads),
    ensures
        after_reads(p, reads).0.read == p.read,
    decreases reads.len(),
{
    if reads.len() > 0 {
        let before = reads.drop_last();
        lemma_none_whole_before(reads);
        lemma_read_kept(p, before);
    }
}

/// Room is made by doubling and no further than needed: the buffer is as long as
/// it was where that is enough, and else shorter than twice what is needed. Its
/// length is the old one times a power of two, what it held stays in place and
/// the rest is zero.
pub proof fn law_room_is_made_by_doubling(p: ParserModel, space: int)
    requires
        p.wf(),
        p.bytes.len() > 0,
        0 <= space,
    ensures
        ({
            let q = p.ensure_space(space);
            &&& q.read == p.read && q.write == p.write
            &&& q.write + space <= q.bytes.len()
            &&& p.write + space <= p.bytes.len() ==> q.bytes == p.bytes
            &&& p.write + space > p.bytes.len() ==> q.bytes.len() < 2 * (p.write + space)
            &&& q.bytes.take(p.bytes.len() as int) == p.bytes
            &&& forall|i: int| p.bytes.len() <= i < q.bytes.len() ==> #[trigger] q.bytes[i] == 0u8
            &&& exists|k: nat|
                q.bytes.len() == p.bytes.len() * #[trigger] vstd::arithmetic::power2::pow2(k)
        }),
{
    let q = p.ensure_space(space);
    let len = p.bytes.len() as int;
    lemma_grown_len(len, p.write + space);
    lemma_grown_power(len, p.write + space);
    assert(q.bytes.take(len) =~= p.bytes);
    if p.write + space <= len {
        assert(q.bytes =~= p.bytes);
    }
}

proof fn lemma_grown_power(len: int, need: int) -> (k: nat)
    requires
        0 < len,
    ensures
        grown_len(len, need) == len * vstd::arithmetic::power2::pow2(k),
        need > len ==> grown_len(len, need) < 2 * need,
    decreases
            if need > len {
                need - len
            } else {
                0
            },
{
    vstd::arithmetic::power2::lemma2_to64();
    if need > len {
        let k = lemma_grown_power(len * 2, need);
        vstd::arithmetic::power2::lemma_pow2_unfold(k + 1);
        let power = vstd::arithmetic::power2::pow2(k) as int;
        assert((len * 2) * power == len * (2 * power)) by (nonlinear_arith);
        k + 1
    } else {
        0
    }
}

/// A buffer can hold what there is room for, and else what it has room for after
/// doublings that keep it within bounds. An empty buffer cannot grow.
pub proof fn law_what_a_buffer_can_hold(p: ParserModel, space: int)
    requires
        p.wf(),
        0 <= space,
    ensures
        p.write + space <= p.bytes.len() ==> p.can_hold(space),
        p.bytes.len() == 0 && space > 0 ==> !p.can_hold(space),
        p.write + space > isize::MAX ==> !p.can_hold(space),
        p.bytes.len() > 0 && 2 * (p.write + space) <= isize::MAX ==> p.can_hold(space),
        p.bytes.len() > 0 && p.write + space > p.bytes.len() ==> (p.can_hold(space)
            <==> p.ensure_space(space).bytes.len() <= isize::MAX),
{
    if p.bytes.len() > 0 {
        lemma_grown_len(p.bytes.len() as int, p.write + space);
    }
}

/// The response that a whole head stands for has the head's status and its
/// fields: each field with its value, unless a later one has its name, and no
/// field under another name.
pub proof fn law_response_says_what_the_head_says(head: HeadModel)
    requires
        head is Complete,
        head->code is Some,
    ensures
        ({
            let response = head_response(head);
            let fields = head->fields;
            &&& Some(response.status) == head->code
            &&& forall|i: int|
                0 <= i < fields.len() && (#[trigger] fields[i]).0.len() > 0 && (forall|j: int|
                    i < j < fields.len() ==> (#[trigger] fields[j]).0 != fields[i].0)
                    ==> response.headers.contains_key(fields[i].0) && response.headers[fields[i].0]
                    == decode_utf8(fields[i].1)
            &&& forall|name: Seq<char>| #[trigger]
                response.headers.contains_key(name) ==> exists|i: int|
                    0 <= i < fields.len() && (#[trigger] fields[i]).0 == name
        }),
{
    let response = head_response(head);
    let fields = head->fields;
    assert forall|i: int|
        0 <= i < fields.len() && (#[trigger] fields[i]).0.len() > 0 && (forall|j: int|
            i < j < fields.len() ==> (#[trigger] fields[j]).0
                != fields[i].0) implies response.headers.contains_key(fields[i].0)
        && response.headers[fields[i].0] == decode_utf8(fields[i].1) by {
        crate::head::law_fields_are_kept(fields, i);
    }
    assert forall|name: Seq<char>| #[trigger] response.headers.contains_key(name) implies exists|
        i: int,
    |
        0 <= i < fields.len() && (#[trigger] fields[i]).0 == name by {
        crate::head::law_no_field_is_made_up(fields, name);
    }
}

/// What the HTTP parser makes of the bytes decides how a header goes on: twice a
/// head that it refuses is tried again with more bytes, the third time it is
/// malformed; a head that goes on doubles the buffer; a whole head is dealt with
/// as far as it reaches, and a response comes of it.
pub proof fn law_head_decides(p: ParserModel, errors: int, head: HeadModel)
    ensures
        ({
            let (q, refused, outcome) = after_head(p, errors, head);
            match head {
                HeadModel::Invalid => {
                    &&& q == p
                    &&& errors < 2 ==> refused == errors + 1 && outcome == HeaderOutcome::More
                    &&& errors >= 2 ==> refused == errors && outcome == HeaderOutcome::Failed(
                        HeaderError::Malformed,
                    )
                },
                HeadModel::Partial => {
                    &&& refused == errors
                    &&& outcome == HeaderOutcome::More
                    &&& q.bytes.len() == 2 * p.bytes.len()
                    &&& q.bytes.take(p.bytes.len() as int) == p.bytes
                    &&& q.read == p.read && q.write == p.write
                },
                HeadModel::Complete { consumed, code, fields } => {
                    &&& refused == errors
                    &&& outcome == HeaderOutcome::Done(head_response(head))
                    &&& q.bytes == p.bytes
                    &&& q.read == p.read + consumed && q.write == p.write
                },
            }
        }),
{
    let q = after_head(p, errors, head).0;
    if head is Partial {
        assert(q.bytes.take(p.bytes.len() as int) =~= p.bytes);
    }
}

/// A read that gives nothing ends a header, and nothing else about the buffer
/// counts then. A read that gives something shows the HTTP parser all that has
/// been received and not dealt with, with room for 32 fields; only a value that
/// is not text keeps what it makes of that from deciding.
pub proof fn law_reads_decide(p: ParserModel, errors: int, amount: int)
    requires
        0 <= p.read <= p.write,
        0 <= amount,
        p.write + amount <= p.bytes.len(),
    ensures
        amount == 0 ==> header_step(p, errors, amount) == (
            p,
            errors,
            HeaderOutcome::Failed(HeaderError::UnexpectedEof),
        ),
        amount > 0 ==> {
            let seen = p.bytes.subrange(p.read, p.write + amount);
            let head = crate::head::parsed_head(seen, 32);
            let (q, refused, outcome) = header_step(p, errors, amount);
            &&& q.write == p.write + amount
            &&& outcome == HeaderOutcome::Undecodable <==> head is Complete && exists|i: int|
                0 <= i < head->fields.len() && !valid_utf8((#[trigger] head->fields[i]).1)
            &&& outcome is Done <==> head is Complete && outcome != HeaderOutcome::Undecodable
            &&& outcome == HeaderOutcome::Done(head_response(head)) && q.read == p.read
                + head->consumed || !(outcome is Done)
            &&& outcome is Failed <==> head is Invalid && errors >= 2
            &&& outcome is Failed ==> outcome == HeaderOutcome::Failed(HeaderError::Malformed)
            &&& refused == if head is Invalid && errors < 2 {
                errors + 1
            } else {
                errors
            }
            &&& !(outcome is Done) ==> q.read == p.read
            &&& q.bytes.take(p.bytes.len() as int) == p.bytes
            &&& q.bytes.len() == if head is Partial {
                2 * p.bytes.len()
            } else {
                p.bytes.len()
            }
        },
{
    if amount > 0 {
        let head = crate::head::parsed_head(p.receive(amount).unparsed(), 32);
        crate::head::law_text_is_told(head);
        let q = header_step(p, errors, amount).0;
        assert(q.bytes.take(p.bytes.len() as int) =~= p.bytes);
    }
}

/// What has been received and not dealt with lies between the two indices.
/// Dealing with bytes and receiving bytes moves one index each and keeps the
/// bytes.
pub proof fn law_indices_bound_what_is_unparsed(p: ParserModel, amount: int)
    requires
        0 <= p.read <= p.write <= p.bytes.len(),
        0 <= amount,
    ensures
        p.unparsed().len() == p.write - p.read,
        forall|i: int| 0 <= i < p.write - p.read ==> #[trigger] p.unparsed()[i] == p.bytes[p.read + i],
        amount <= p.write - p.read ==> p.consume(amount).unparsed() == p.unparsed().skip(amount),
        p.write + amount <= p.bytes.len() ==> p.receive(amount).unparsed() == p.unparsed()
            + p.bytes.subrange(p.write, p.write + amount),
{
    if amount <= p.write - p.read {
        assert(p.consume(amount).unparsed() =~= p.unparsed().skip(amount));
    }
    if p.write + amount <= p.bytes.len() {
        assert(p.receive(amount).unparsed() =~= p.unparsed() + p.bytes.subrange(
            p.write,
            p.write + amount,
        ));
    }
}

/// A buffer is modelled by its bytes and its two indices.
pub proof fn law_buffer_is_its_bytes(parser: Parser)
    ensures
        parser@.bytes == parser.bytes@,
        parser@.read == parser.read_idx,
        parser@.write == parser.write_idx,
{
}

} // verus!
