use benchrs::body::{Body, BodyError, BodyStep, ChunkLine, ChunkStep};
use benchrs::parser::Parser;
use benchrs::response::{Headers, Response};

fn response(fields: &[(&str, &str)]) -> Response {
    let mut headers = Headers::new();
    for (name, value) in fields {
        headers.insert(name.to_string(), value.to_string());
    }
    Response { status: 200, headers }
}

fn holding(bytes: &[u8]) -> Parser {
    Parser { bytes: bytes.to_vec(), read_idx: 0, write_idx: bytes.len() }
}

/// Discards a chunked body from a stream that is read in pieces of up to
/// `piece` bytes; gives what remains, or the step at which that ended.
fn drop_chunked(mut stream: &[u8], piece: usize) -> Result<Vec<u8>, BodyStep> {
    let mut parser = Parser::new(64);
    let mut body = Body::Chunked;
    loop {
        let step = parser.body_step(&body);
        let at = parser.write_idx;
        let amount = match step {
            BodyStep::Read => stream.len().min(piece).min(parser.bytes.len() - at),
            BodyStep::ReadExact(amount) => amount,
            BodyStep::Done => {
                let received = parser.write_idx;
                return Ok(if parser.read_idx <= received {
                    [parser.unparsed(), stream].concat()
                } else {
                    stream[parser.read_idx - received..].to_vec()
                });
            }
            _ => return Err(step),
        };
        if amount == 0 || amount > stream.len() {
            return Err(step);
        }
        parser.bytes[at..at + amount].copy_from_slice(&stream[..amount]);
        stream = &stream[amount..];
        if step == BodyStep::Read {
            parser.read(amount).unwrap();
        } else {
            parser.body_read(&mut body, amount);
        }
    }
}

#[test]
fn announced_bodies() {
    let parser = Parser { bytes: vec![0; 100], read_idx: 20, write_idx: 50 };
    assert_eq!(parser.drop_body(&response(&[])), Ok(Body::Absent));
    let sized = |length| parser.drop_body(&response(&[("Content-Length", length)]));
    assert_eq!(sized("0"), Ok(Body::Sized { left: 0 }));
    assert_eq!(sized("30"), Ok(Body::Sized { left: 0 }));
    assert_eq!(sized("31"), Ok(Body::Sized { left: 1 }));
    assert_eq!(sized("1000"), Ok(Body::Sized { left: 970 }));
    assert_eq!(sized("x"), Err(BodyError::BadLength));
    assert_eq!(sized(""), Err(BodyError::BadLength));
    assert_eq!(sized("1f"), Err(BodyError::BadLength));
    let chunked = ("Transfer-Encoding", "chunked");
    assert_eq!(parser.drop_body(&response(&[chunked])), Ok(Body::Chunked));
    assert_eq!(
        parser.drop_body(&response(&[("Content-Length", "31"), chunked])),
        Ok(Body::Sized { left: 1 })
    );
    assert_eq!(parser.drop_body(&response(&[("content-length", "31")])), Ok(Body::Absent));
}

#[test]
fn bodies_that_cannot_be_announced() {
    let parser = Parser { bytes: vec![0; 100], read_idx: 20, write_idx: 50 };
    let can = |name, value| parser.can_announce(&response(&[(name, value)]));
    assert!(can("Transfer-Encoding", "chunked"));
    assert!(!can("Transfer-Encoding", "Chunked"));
    assert!(!can("Transfer-Encoding", "gzip, chunked"));
    assert!(can("transfer-encoding", "gzip"));
    assert!(can("Content-Length", "1"));
    assert!(can("Content-Length", "none"));
    assert!(can("Content-Length", "18446744073709551595"));
    assert!(!can("Content-Length", "18446744073709551596"));
    let both = [("Content-Length", "1"), ("Transfer-Encoding", "gzip")];
    assert!(parser.can_announce(&response(&both)));
}

#[test]
fn sized_body_is_discarded() {
    let mut parser = Parser::new(8);
    let mut body = Body::Sized { left: 20 };
    let mut steps = Vec::new();
    while let BodyStep::ReadExact(amount) = parser.body_step(&body) {
        steps.push((amount, parser.bytes.len()));
        parser.body_read(&mut body, amount);
    }
    assert_eq!(steps, [(8, 8), (8, 16), (4, 32)]);
    assert_eq!(body, Body::Sized { left: 0 });
    assert_eq!(parser.body_step(&body), BodyStep::Done);
    assert_eq!((parser.read_idx, parser.write_idx), (20, 20));
}

#[test]
fn absent_body() {
    let mut parser = holding(b"next");
    assert_eq!(parser.body_step(&Body::Absent), BodyStep::Done);
    assert_eq!(parser.unparsed(), b"next");
}

#[test]
fn no_next_step() {
    assert_eq!(Parser::new(0).body_step(&Body::Sized { left: 1 }), BodyStep::Stuck);
    assert_eq!(holding(b"\n").body_step(&Body::Chunked), BodyStep::Stuck);
    assert_eq!(holding(b"\xff\r\n").body_step(&Body::Chunked), BodyStep::Stuck);
}

#[test]
fn first_lines_of_chunks() {
    let line = |bytes: &[u8]| holding(bytes).chunk_line();
    assert_eq!(line(b""), ChunkLine::Unfinished);
    assert_eq!(line(b"123456789abcdef"), ChunkLine::Unfinished);
    assert_eq!(line(b"123456789abcdef\r"), ChunkLine::Endless);
    assert_eq!(line(b"123456789abcdef\r\n"), ChunkLine::Size { size: 0x123456789abcdef, len: 17 });
    assert_eq!(line(b"0123456789abcdef\r\n"), ChunkLine::Long);
    assert_eq!(line(b"\nabc"), ChunkLine::Empty);
    assert_eq!(line(b"a\n"), ChunkLine::Bare);
    assert_eq!(line(b"\xe2\x82\r\n"), ChunkLine::Garbled);
    assert_eq!(line(b"g\r\n"), ChunkLine::NotHex);
    assert_eq!(line(b"\r\n"), ChunkLine::NotHex);
    assert_eq!(line(b"a;x=y\r\n"), ChunkLine::NotHex);
    assert_eq!(line(b"1aB\r\nrest"), ChunkLine::Size { size: 0x1ab, len: 5 });
    assert_eq!(line(b"+5\r\n"), ChunkLine::Size { size: 5, len: 4 });
}

#[test]
fn single_chunks() {
    let mut parser = holding(b"3\r\nabc\r\n1\r\nd");
    assert_eq!(parser.drop_chunk(), ChunkStep::Next);
    assert_eq!(parser.unparsed(), b"1\r\nd");
    assert_eq!(parser.drop_chunk(), ChunkStep::ReadExact(2));
    assert!(parser.unparsed().is_empty());
    assert_eq!(parser.bytes.len(), 24);
    let mut parser = holding(b"0\r\n\r\nnext");
    assert_eq!(parser.drop_chunk(), ChunkStep::Last);
    assert_eq!(parser.unparsed(), b"next");
    assert_eq!(holding(b"12").drop_chunk(), ChunkStep::Read);
    assert_eq!(holding(b"x\r\n").drop_chunk(), ChunkStep::Failed(BodyError::BadChunkSize));
    assert!(!holding(b"\n").chunk_defined());
    assert!(!holding(b"\x80\r\n").chunk_defined());
}

#[test]
fn whole_chunks_are_passed_over() {
    let mut parser = holding(b"1\r\na\r\n2\r\nbc\r\n5\r\nd");
    assert_eq!(parser.drop_chunks(), BodyStep::ReadExact(6));
    assert!(parser.unparsed().is_empty());
    let mut parser = holding(b"1\r\na\r\n2");
    assert_eq!(parser.drop_chunks(), BodyStep::Read);
    assert_eq!(parser.unparsed(), b"2");
    let mut parser = holding(b"1\r\na\r\n0\r\n\r\n");
    assert_eq!(parser.drop_chunks(), BodyStep::Done);
    assert!(parser.unparsed().is_empty());
}

#[test]
fn bodies_that_cannot_be_discarded() {
    let failed = |bytes: &[u8]| match holding(bytes).body_step(&Body::Chunked) {
        BodyStep::Failed(error) => error,
        step => panic!("{:?}", step),
    };
    assert_eq!(failed(b"0000000000000000000"), BodyError::NoChunkLine { len: 19 });
    assert_eq!(failed(b"00000000000000000\r\n"), BodyError::LongChunkLine);
    assert_eq!(failed(b"12\n"), BodyError::MissingCarriageReturn);
    assert_eq!(failed(b"1\r\na\r\nzz\r\n"), BodyError::BadChunkSize);
}

#[test]
fn chunked_body_is_discarded() {
    let mut stream = b"3\r\nabc\r\n00c8\r\n".to_vec();
    stream.resize(stream.len() + 200, b'x');
    stream.extend_from_slice(b"\r\n01\r\nz\r\n000\r\n\r\nHTTP/1.1 200");
    for piece in 1..64 {
        assert_eq!(drop_chunked(&stream, piece), Ok(b"HTTP/1.1 200".to_vec()));
    }
}

#[test]
fn chunked_body_that_ends_early() {
    assert_eq!(drop_chunked(b"3\r\nab", 64), Err(BodyStep::ReadExact(3)));
    assert_eq!(drop_chunked(b"3\r\nabc\r\n0", 64), Err(BodyStep::Read));
}

#[test]
fn longest_line_in_pieces() {
    let stream = b"000000000000003\r\nabc\r\n0\r\n\r\n!";
    assert_eq!(drop_chunked(stream, 64), Ok(b"!".to_vec()));
    assert_eq!(drop_chunked(stream, 15), Ok(b"!".to_vec()));
    assert_eq!(
        drop_chunked(stream, 16),
        Err(BodyStep::Failed(BodyError::NoChunkLine { len: 16 }))
    );
}
