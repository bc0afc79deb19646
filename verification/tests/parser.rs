use benchrs::body::BodyStep;
use benchrs::head::{collect_fields, Head};
use benchrs::parser::{HeaderError, HeaderStep, Parser, UnexpectedEof};
use benchrs::response::Response;

const RESPONSE: &[u8] = br#"
HTTP/1.1 200 OK
Content-Type: text/html
Content-Length: 47

<!DOCTYPE html><html><body>Hello!</body></html>"#;

/// Bytes that are read in pieces of up to `piece` bytes.
struct Stream {
    bytes: Vec<u8>,
    piece: usize,
}

impl Stream {
    fn new(bytes: &[u8], piece: usize) -> Self {
        Stream { bytes: bytes.to_vec(), piece }
    }

    fn read(&mut self, parser: &mut Parser) -> usize {
        let room = parser.bytes.len() - parser.write_idx;
        let amount = self.bytes.len().min(room).min(self.piece);
        self.read_exact(parser, amount);
        amount
    }

    fn read_exact(&mut self, parser: &mut Parser, amount: usize) {
        let at = parser.write_idx;
        let data: Vec<u8> = self.bytes.drain(..amount).collect();
        parser.bytes[at..at + amount].copy_from_slice(&data);
    }
}

fn read_header(parser: &mut Parser, stream: &mut Stream) -> HeaderStep {
    let mut parse_errors = 0;
    loop {
        let amount = stream.read(parser);
        match parser.read_header(amount, &mut parse_errors) {
            HeaderStep::More => {}
            step => return step,
        }
    }
}

fn response(parser: &mut Parser, stream: &mut Stream) -> Response {
    match read_header(parser, stream) {
        HeaderStep::Done(response) => response,
        step => panic!("{:?}", step),
    }
}

fn drop_body(parser: &mut Parser, stream: &mut Stream, response: &Response) {
    assert!(parser.can_announce(response));
    let mut body = parser.drop_body(response).unwrap();
    loop {
        match parser.body_step(&body) {
            BodyStep::Done => return,
            BodyStep::Read => {
                let amount = stream.read(parser);
                parser.read(amount).unwrap();
            }
            BodyStep::ReadExact(amount) => {
                stream.read_exact(parser, amount);
                parser.body_read(&mut body, amount);
            }
            step => panic!("{:?}", step),
        }
    }
}

#[test]
fn test_parse() {
    let mut stream = Stream::new(RESPONSE, usize::MAX);
    let mut parser = Parser::new(10_000);
    let response = response(&mut parser, &mut stream);
    drop_body(&mut parser, &mut stream, &response);
}

#[test]
fn test_parse_chunked() {
    let mut bytes = b"HTTP/1.1 200 OK\r\nTransfer-Encoding: chunked\r\n\r\n".to_vec();
    for size in [1, 10, 4096, 70_000, 17] {
        bytes.extend_from_slice(format!("{:x}\r\n", size).as_bytes());
        bytes.resize(bytes.len() + size, b'x');
        bytes.extend_from_slice(b"\r\n");
    }
    bytes.extend_from_slice(b"0\r\n\r\n");
    let mut stream = Stream::new(&bytes, usize::MAX);
    let mut parser = Parser::new(10_000);
    let response = response(&mut parser, &mut stream);
    drop_body(&mut parser, &mut stream, &response);
    assert!(stream.bytes.is_empty());
}

#[test]
fn header_of_a_response() {
    let mut stream = Stream::new(RESPONSE, usize::MAX);
    let mut parser = Parser::new(10_000);
    let response = response(&mut parser, &mut stream);
    assert_eq!(response.status, 200);
    assert_eq!(response.headers.get("Content-Type"), Some("text/html"));
    assert_eq!(response.headers.get("Content-Length"), Some("47"));
    assert_eq!(response.headers.get("Content"), None);
    assert_eq!(parser.unparsed(), &RESPONSE[RESPONSE.len() - 47..]);
    assert_eq!(parser.sample(9), "<!DOCTYPE");
    assert_eq!(parser.bytes.len(), 10_000);
}

#[test]
fn header_in_pieces() {
    let mut stream = Stream::new(RESPONSE, 7);
    let mut parser = Parser::new(16);
    let response = response(&mut parser, &mut stream);
    assert_eq!(response.status, 200);
    assert_eq!(response.headers.get("Content-Length"), Some("47"));
    drop_body(&mut parser, &mut stream, &response);
    assert!(stream.bytes.is_empty());
}

#[test]
fn cutting_does_not_count() {
    let bytes = b"HTTP/1.1 201 Created\r\nServer: s\r\nContent-Length: 3\r\n\r\nabc";
    // The buffer doubles at each read, so that there must not be too many.
    for piece in 6..bytes.len() + 1 {
        for size in [1, 2, 16, 1000] {
            let mut stream = Stream::new(bytes, piece);
            let mut parser = Parser::new(size);
            let response = response(&mut parser, &mut stream);
            assert_eq!(response.status, 201);
            assert_eq!(response.headers.get("Server"), Some("s"));
            assert_eq!(response.headers.get("Content-Length"), Some("3"));
            assert_eq!(parser.read_idx, bytes.len() - 3);
            assert_eq!([parser.unparsed(), &stream.bytes].concat(), b"abc");
        }
    }
}

#[test]
fn chunked_body_is_counted() {
    let head = b"HTTP/1.1 200 OK\r\nTransfer-Encoding: chunked\r\n\r\n";
    let bytes = [&head[..], b"5\r\nabcde\r\n0b\r\nabcdefghijk\r\n0\r\n\r\n"].concat();
    for piece in [1, 2, 3, 5, 8, 13, 21, 1000] {
        let mut stream = Stream::new(&bytes, head.len());
        let mut parser = Parser::new(10_000);
        let response = response(&mut parser, &mut stream);
        stream.piece = piece;
        drop_body(&mut parser, &mut stream, &response);
        assert_eq!(parser.read_idx, bytes.len());
        assert!(stream.bytes.len() <= 2);
    }
}

#[test]
fn buffer_doubles_while_a_header_goes_on() {
    let mut stream = Stream::new(b"HTTP/1.1 200 OK\r\nA: ", usize::MAX);
    let mut parser = Parser::new(100);
    let amount = stream.read(&mut parser);
    let mut parse_errors = 0;
    assert!(matches!(parser.read_header(amount, &mut parse_errors), HeaderStep::More));
    assert_eq!(parse_errors, 0);
    assert_eq!(parser.bytes.len(), 200);
    assert_eq!(parser.unparsed(), b"HTTP/1.1 200 OK\r\nA: ");
    parser.reset();
    assert_eq!((parser.bytes.len(), parser.read_idx, parser.write_idx), (200, 0, 0));
    assert!(parser.unparsed().is_empty());
}

#[test]
fn fields_with_one_name() {
    let mut stream = Stream::new(b"HTTP/1.0 404 No\r\nA: 1\r\nB:\r\nA: 2\r\n\r\nrest", usize::MAX);
    let mut parser = Parser::new(100);
    let response = response(&mut parser, &mut stream);
    assert_eq!(response.status, 404);
    assert_eq!(response.headers.get("A"), Some("2"));
    assert_eq!(response.headers.get("B"), Some(""));
    assert_eq!(parser.unparsed(), b"rest");
}

#[test]
fn malformed_after_retries() {
    let mut stream = Stream::new(b"no response", 1);
    let mut parser = Parser::new(100);
    let mut parse_errors = 0;
    for (errors, goes_on) in [(1, true), (2, true), (2, false)] {
        let amount = stream.read(&mut parser);
        match parser.read_header(amount, &mut parse_errors) {
            HeaderStep::More => assert!(goes_on),
            HeaderStep::Failed(error) => {
                assert!(!goes_on);
                assert_eq!(error, HeaderError::Malformed);
            }
            step => panic!("{:?}", step),
        }
        assert_eq!(parse_errors, errors);
        assert_eq!(parser.bytes.len(), 100);
    }
    assert_eq!(parser.sample(50), "no ");
}

#[test]
fn end_of_the_stream_within_a_header() {
    let mut stream = Stream::new(b"HTTP/1.1 200", usize::MAX);
    let mut parser = Parser::new(100);
    assert!(matches!(
        read_header(&mut parser, &mut stream),
        HeaderStep::Failed(HeaderError::UnexpectedEof)
    ));
    assert_eq!(parser.unparsed(), b"HTTP/1.1 200");
}

#[test]
fn number_of_fields_is_limited() {
    for (fields, accepted) in [(32, true), (33, false)] {
        let mut bytes = b"HTTP/1.1 200 OK\r\n".to_vec();
        for i in 0..fields {
            bytes.extend_from_slice(format!("F{}: {}\r\n", i, i).as_bytes());
        }
        bytes.extend_from_slice(b"\r\nabc");
        let whole = bytes.len() - 2;
        let mut stream = Stream::new(&bytes, whole);
        let mut parser = Parser::new(10_000);
        let mut parse_errors = 0;
        let amount = stream.read(&mut parser);
        match parser.read_header(amount, &mut parse_errors) {
            HeaderStep::Done(response) => {
                assert!(accepted);
                assert_eq!(response.headers.get("F31"), Some("31"));
                assert_eq!(parser.unparsed(), b"a");
            }
            HeaderStep::More => {
                assert!(!accepted);
                assert_eq!(parse_errors, 1);
            }
            step => panic!("{:?}", step),
        }
    }
}

#[test]
fn value_that_is_not_text() {
    let mut stream = Stream::new(b"HTTP/1.1 200 OK\r\nA: \xff\r\n\r\n", usize::MAX);
    let mut parser = Parser::new(100);
    assert!(matches!(read_header(&mut parser, &mut stream), HeaderStep::Undecodable));
}

#[test]
fn going_on_from_a_head() {
    let mut parser = Parser { bytes: b"abcdef".to_vec(), read_idx: 1, write_idx: 5 };
    let mut parse_errors = 0;
    assert!(matches!(parser.parsed_header(Head::Partial, &mut parse_errors), HeaderStep::More));
    assert_eq!(parser.bytes, b"abcdef\0\0\0\0\0\0");
    assert!(matches!(parser.parsed_header(Head::Invalid, &mut parse_errors), HeaderStep::More));
    assert_eq!(parse_errors, 1);
    let fields = vec![
        ("A".to_string(), b"1".to_vec()),
        (String::new(), Vec::new()),
        ("B".to_string(), "\u{20AC}".as_bytes().to_vec()),
    ];
    let head = Head::Complete { consumed: 3, code: Some(418), fields };
    assert!(head.is_text());
    match parser.parsed_header(head, &mut parse_errors) {
        HeaderStep::Done(response) => {
            assert_eq!(response.status, 418);
            assert_eq!(response.headers.get("A"), Some("1"));
            assert_eq!(response.headers.get("B"), Some("\u{20AC}"));
            assert_eq!(response.headers.get(""), None);
        }
        step => panic!("{:?}", step),
    }
    assert_eq!(parser.unparsed(), b"e");
    assert_eq!(parse_errors, 1);
}

#[test]
fn fields_are_collected() {
    let fields = vec![("A".to_string(), b"1".to_vec()), ("A".to_string(), b"2".to_vec())];
    assert_eq!(collect_fields(&fields).get("A"), Some("2"));
    let garbled = vec![("A".to_string(), vec![0xC3])];
    assert!(!Head::Complete { consumed: 0, code: None, fields: garbled }.is_text());
    assert!(Head::Partial.is_text());
}

#[test]
fn samples() {
    let parser = Parser { bytes: b"abc\xff!".to_vec(), read_idx: 1, write_idx: 5 };
    assert_eq!(parser.sample(0), "");
    assert_eq!(parser.sample(2), "bc");
    assert_eq!(parser.sample(3), "NON-UTF8 DATA SAMPLE");
    assert_eq!(parser.sample(100), "NON-UTF8 DATA SAMPLE");
}

#[test]
fn room_is_made_by_doubling() {
    let mut parser = Parser { bytes: vec![1, 2, 3], read_idx: 1, write_idx: 3 };
    assert!(parser.can_hold(0));
    assert!(parser.can_hold(10));
    assert!(!parser.can_hold(usize::MAX));
    assert!(!parser.can_hold(isize::MAX as usize));
    parser.ensure_space(0);
    assert_eq!(parser.bytes, [1, 2, 3]);
    parser.ensure_space(4);
    assert_eq!(parser.bytes, [1, 2, 3, 0, 0, 0, 0, 0, 0, 0, 0, 0]);
    assert_eq!((parser.read_idx, parser.write_idx), (1, 3));
    let empty = Parser::new(0);
    assert!(empty.can_hold(0));
    assert!(!empty.can_hold(1));
}

#[test]
fn reads_are_noted() {
    let mut parser = Parser::new(4);
    assert_eq!(parser.read(0), Err(UnexpectedEof));
    assert_eq!(parser.read(3), Ok(3));
    assert_eq!(parser.unparsed(), [0, 0, 0]);
    parser.consume(2);
    assert_eq!(parser.unparsed(), [0]);
    assert_eq!(parser.read(1), Ok(1));
    assert_eq!((parser.read_idx, parser.write_idx), (2, 4));
}
