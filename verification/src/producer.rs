//! Requests: the method, the header fields and the text that is sent.

use crate::address::{url_to_hostpath, NotAUrl, UrlModel};
use crate::text::{decimal_text, same_text, starts_with, to_lowercase, to_uppercase, Text};
use vstd::prelude::*;
use vstd::utf8::*;

verus! {

/// A request method.
#[derive(Debug, Clone, Copy, PartialEq, Eq, Structural)]
pub enum RequestMethod {
    Get,
    Post,
    Head,
}

/// The method that a text names, letter for letter.
pub open spec fn method_named(text: Seq<char>) -> Option<RequestMethod> {
    if text == "GET"@ {
        Some(RequestMethod::Get)
    } else if text == "POST"@ {
        Some(RequestMethod::Post)
    } else if text == "HEAD"@ {
        Some(RequestMethod::Head)
    } else {
        None
    }
}

impl RequestMethod {
    /// The method's name.
    pub open spec fn name(self) -> Seq<char> {
        match self {
            RequestMethod::Get => "GET"@,
            RequestMethod::Post => "POST"@,
            RequestMethod::Head => "HEAD"@,
        }
    }

    /// The method that a text names, letter for letter.
    pub fn from_uppercase(text: &str) -> (res: Result<RequestMethod, &'static str>)
        ensures
            match res {
                Ok(method) => method_named(text@) == Some(method),
                Err(message) => method_named(text@) is None && message@ == "Invalid method"@,
            },
            res matches Ok(method) ==> text@ == match method {
                RequestMethod::Get => "GET"@,
                RequestMethod::Post => "POST"@,
                RequestMethod::Head => "HEAD"@,
            },
            res is Err ==> text@ != "GET"@ && text@ != "POST"@ && text@ != "HEAD"@,
    {
        if same_text(text, "GET") {
            Ok(RequestMethod::Get)
        } else if same_text(text, "POST") {
            Ok(RequestMethod::Post)
        } else if same_text(text, "HEAD") {
            Ok(RequestMethod::Head)
        } else {
            Err("Invalid method")
        }
    }

    /// The method's name.
    pub fn to_string(&self) -> (res: String)
        ensures
            res@ == self.name(),
            res@ == match *self {
                RequestMethod::Get => "GET"@,
                RequestMethod::Post => "POST"@,
                RequestMethod::Head => "HEAD"@,
            },
    {
        match self {
            RequestMethod::Get => "GET".to_owned(),
            RequestMethod::Post => "POST".to_owned(),
            RequestMethod::Head => "HEAD".to_owned(),
        }
    }
}

impl std::str::FromStr for RequestMethod {
    type Err = &'static str;

    /// The method that a text names in letters of either case.
    fn from_str(s: &str) -> (res: Result<RequestMethod, &'static str>)
        ensures
            match res {
                Ok(method) => method_named(crate::text::uppercase(s@)) == Some(method),
                Err(message) => method_named(crate::text::uppercase(s@)) is None && message@
                    == "Invalid method"@,
            },
    {
        let upper = to_uppercase(s);
        RequestMethod::from_uppercase(upper.as_str())
    }
}

/// How requests are made.
#[derive(Debug)]
pub struct RequestConfig {
    /// Whether the connection is to be kept for the next request.
    pub keepalive: bool,
    /// What the client calls itself.
    pub useragent: String,
}

/// What the client calls itself unless told otherwise.
pub const USER_AGENT: &'static str = "BenchRs/0.1.10-alpha.0";

impl Default for RequestConfig {
    fn default() -> (res: Self)
        ensures
            !res.keepalive,
            res.useragent@ == USER_AGENT@,
            res.useragent@ == "BenchRs/0.1.10-alpha.0"@,
    {
        RequestConfig { keepalive: false, useragent: USER_AGENT.to_owned() }
    }
}

impl Clone for RequestConfig {
    fn clone(&self) -> (res: Self)
        ensures
            res.keepalive == self.keepalive,
            res.useragent@ == self.useragent@,
    {
        RequestConfig { keepalive: self.keepalive, useragent: self.useragent.clone() }
    }
}

/// A request.
pub struct RequestModel {
    pub keepalive: bool,
    pub useragent: Seq<char>,
    pub addr: Seq<char>,
    pub host: Seq<char>,
    pub path: Seq<char>,
    pub method: RequestMethod,
    /// The header lines that the user gives.
    pub headers: Seq<Seq<char>>,
    pub body: Option<Seq<u8>>,
}

/// A request to an address.
#[derive(Debug)]
pub struct ProducerRequest {
    config: RequestConfig,
    pub addr: String,
    host: String,
    path: String,
    pub method: RequestMethod,
    headers: Vec<String>,
    body: Option<Vec<u8>>,
}

/// The characters of some texts.
pub open spec fn texts(list: Seq<String>) -> Seq<Seq<char>> {
    list.map_values(|text: String| text@)
}

/// The bytes of an optional vector.
pub open spec fn optional_bytes(bytes: Option<Vec<u8>>) -> Option<Seq<u8>> {
    match bytes {
        Some(bytes) => Some(bytes@),
        None => None,
    }
}

impl View for ProducerRequest {
    type V = RequestModel;

    closed spec fn view(&self) -> RequestModel {
        RequestModel {
            keepalive: self.config.keepalive,
            useragent: self.config.useragent@,
            addr: self.addr@,
            host: self.host@,
            path: self.path@,
            method: self.method,
            headers: texts(self.headers@),
            body: optional_bytes(self.body),
        }
    }
}

/// Whether one of the texts of `haystack` starts with `needle` where the case
/// of letters does not count.
pub open spec fn has_caseless(haystack: Seq<Seq<char>>, needle: Seq<char>) -> bool {
    exists|i: int|
        0 <= i < haystack.len() && crate::text::lowercase(needle).is_prefix_of(
            crate::text::lowercase(#[trigger] haystack[i]),
        )
}

/// Whether a header line gives the host, in letters of either case.
pub open spec fn names_host(header: Seq<char>) -> bool {
    crate::text::lowercase("Host:"@).is_prefix_of(crate::text::lowercase(header))
}

/// Whether one of the texts of `haystack` starts with `needle` where the case
/// of letters does not count.
pub fn caseless_find<T: Text>(haystack: &[T], needle: &str) -> (res: bool)
    ensures
        res == has_caseless(haystack@.map_values(|item: T| item.text()), needle@),
{
    let ghost items = haystack@.map_values(|item: T| item.text());
    let lower = to_lowercase(needle);
    let mut i: usize = 0;
    while i < haystack.len()
        invariant
            0 <= i <= haystack@.len(),
            items == haystack@.map_values(|item: T| item.text()),
            lower@ == crate::text::lowercase(needle@),
            forall|j: int|
                0 <= j < i ==> !crate::text::lowercase(needle@).is_prefix_of(
                    crate::text::lowercase(#[trigger] items[j]),
                ),
        decreases haystack@.len() - i,
    {
        let item = to_lowercase(haystack[i].as_text());
        assert(item@ == crate::text::lowercase(items[i as int]));
        if starts_with(item.as_str(), lower.as_str()) {
            return true;
        }
        i = i + 1;
    }
    false
}

/// Which header fields the user gives.
pub struct GivenFields {
    pub host: bool,
    pub accept: bool,
    pub connection: bool,
    pub user_agent: bool,
    pub content_length: bool,
}

/// The end of a header line.
pub const LINE_END: &'static str = "\r\n";

/// A header line, or nothing where the user gives that field.
pub open spec fn default_line(given: bool, name: Seq<char>, value: Seq<char>) -> Seq<char> {
    if given {
        Seq::empty()
    } else {
        name + value + LINE_END@
    }
}

/// Header lines, each with its end.
pub open spec fn lines(headers: Seq<Seq<char>>) -> Seq<char>
    decreases headers.len(),
{
    if headers.len() == 0 {
        Seq::empty()
    } else {
        lines(headers.drop_last()) + headers.last() + LINE_END@
    }
}

impl RequestModel {
    /// Which header fields the user gives, in letters of either case.
    pub open spec fn given(self) -> GivenFields {
        GivenFields {
            host: has_caseless(self.headers, "Host:"@),
            accept: has_caseless(self.headers, "Accept:"@),
            connection: has_caseless(self.headers, "Connection:"@),
            user_agent: has_caseless(self.headers, "User-Agent:"@),
            content_length: has_caseless(self.headers, "Content-Length:"@),
        }
    }

    /// The header lines that the user does not give. Only a request with a
    /// body has a length.
    pub open spec fn default_lines(self, given: GivenFields) -> Seq<char> {
        let connection = if self.keepalive {
            "keep-alive"@
        } else {
            "close"@
        };
        default_line(given.host, "Host: "@, self.host) + default_line(
            given.accept,
            "Accept: "@,
            "*/*"@,
        ) + default_line(given.connection, "Connection: "@, connection) + default_line(
            given.user_agent,
            "User-Agent: "@,
            self.useragent,
        ) + match self.body {
            Some(body) => default_line(
                given.content_length,
                "Content-Length: "@,
                crate::text::decimal(body.len()),
            ),
            None => Seq::empty(),
        }
    }

    /// The text of the request up to its body, where `given` are the header
    /// fields that the user gives.
    pub open spec fn text_given(self, given: GivenFields) -> Seq<char> {
        self.method.name() + " "@ + self.path + " HTTP/1.1\r\n"@ + self.default_lines(given)
            + lines(self.headers) + LINE_END@
    }

    /// The text of the request up to its body.
    pub open spec fn text(self) -> Seq<char> {
        self.text_given(self.given())
    }

    /// The request as it is sent.
    pub open spec fn message(self) -> Seq<u8> {
        encode_utf8(self.text()) + match self.body {
            Some(body) => body,
            None => Seq::empty(),
        }
    }

    /// The request once it is sent to another address, which names `host` and
    /// what to ask it for.
    pub open spec fn moved(self, addr: Seq<char>, host: Seq<char>, path: Seq<char>) -> RequestModel {
        RequestModel {
            addr,
            host,
            path,
            headers: self.headers.filter(|header: Seq<char>| !names_host(header)),
            ..self
        }
    }

    /// The request once it is sent to another address.
    pub open spec fn redirected(self, addr: Seq<char>, url: UrlModel) -> RequestModel {
        self.moved(addr, url.hostpath().0, url.hostpath().1)
    }
}

/// A header line, or nothing where the user gives that field.
fn default_text(given: bool, name: &str, value: &str) -> (res: String)
    ensures
        res@ == default_line(given, name@, value@),
{
    if given {
        String::new()
    } else {
        let mut line = name.to_owned();
        line.append(value);
        line.append(LINE_END);
        line
    }
}

/// Header lines, each with its end.
fn lines_text(headers: &Vec<String>) -> (res: String)
    ensures
        res@ == lines(texts(headers@)),
{
    let ghost all = texts(headers@);
    let mut res = String::new();
    let mut i: usize = 0;
    assert(all.take(0) =~= Seq::empty());
    while i < headers.len()
        invariant
            0 <= i <= headers@.len(),
            all == texts(headers@),
            res@ == lines(all.take(i as int)),
        decreases headers@.len() - i,
    {
        proof {
            assert(all.take(i + 1).drop_last() =~= all.take(i as int));
            assert(all.take(i + 1).last() == headers@[i as int]@);
        }
        res.append(headers[i].as_str());
        res.append(LINE_END);
        i = i + 1;
    }
    assert(all.take(i as int) =~= all);
    res
}

impl ProducerRequest {
    /// A request without a body to `addr`, which names `host` and what to ask
    /// it for.
    pub fn new_at(
        addr: &str,
        host: String,
        path: String,
        method: RequestMethod,
        user_headers: Vec<String>,
        config: RequestConfig,
    ) -> (res: Self)
        ensures
            res@ == (RequestModel {
                keepalive: config.keepalive,
                useragent: config.useragent@,
                addr: addr@,
                host: host@,
                path: path@,
                method,
                headers: texts(user_headers@),
                body: None,
            }),
            res@.headers.len() == user_headers@.len(),
            forall|i: int|
                0 <= i < user_headers@.len() ==> #[trigger] res@.headers[i] == user_headers@[i]@,
    {
        ProducerRequest {
            config,
            addr: addr.to_owned(),
            host,
            path,
            method,
            headers: user_headers,
            body: None,
        }
    }

    /// A request to `addr` without a body.
    pub fn new(
        addr: &str,
        method: RequestMethod,
        user_headers: Vec<String>,
        config: RequestConfig,
    ) -> (res: Result<Self, NotAUrl>)
        ensures
            match res {
                Ok(request) => crate::address::parsed_url(addr@) matches Some(url) && request@ == (
                RequestModel {
                    keepalive: config.keepalive,
                    useragent: config.useragent@,
                    addr: addr@,
                    host: url.hostpath().0,
                    path: url.hostpath().1,
                    method,
                    headers: texts(user_headers@),
                    body: None,
                }),
                Err(_) => crate::address::parsed_url(addr@) is None,
            },
            res matches Ok(request) ==> request@.headers.len() == user_headers@.len() && forall|
                i: int,
            |
                0 <= i < user_headers@.len() ==> #[trigger] request@.headers[i] == user_headers@[i]@,
    {
        match url_to_hostpath(addr) {
            Ok((host, path)) => Ok(
                ProducerRequest::new_at(addr, host, path, method, user_headers, config),
            ),
            Err(error) => Err(error),
        }
    }

    /// The request with another body, or without one.
    pub fn with_body(self, body: Option<Vec<u8>>) -> (res: Self)
        ensures
            res@ == (RequestModel { body: optional_bytes(body), ..self@ }),
            body matches Some(bytes) ==> res@.body == Some(bytes@),
            body is None ==> res@.body is None,
    {
        let mut res = self;
        res.body = body;
        res
    }

    /// The address.
    pub fn addr(&self) -> (res: &str)
        ensures
            res@ == self@.addr,
    {
        self.addr.as_str()
    }

    /// The method.
    pub fn method(&self) -> (res: RequestMethod)
        ensures
            res == self@.method,
    {
        self.method
    }

    /// Sends the request to another address. A host that the user gave for the
    /// old one is forgotten, in whatever letters its header line is spelled.
    pub fn redirect(&mut self, addr: &str) -> (res: Result<(), NotAUrl>)
        ensures
            match res {
                Ok(_) => crate::address::parsed_url(addr@) matches Some(url) && final(self)@
                    == old(self)@.redirected(addr@, url),
                Err(_) => crate::address::parsed_url(addr@) is None && *final(self) == *old(self),
            },
    {
        match url_to_hostpath(addr) {
            Ok((host, path)) => {
                self.redirect_at(addr, host, path);
                Ok(())
            },
            Err(error) => Err(error),
        }
    }

    /// Sends the request to another address, which names `host` and what to ask
    /// it for.
    pub fn redirect_at(&mut self, addr: &str, host: String, path: String)
        ensures
            final(self)@ == old(self)@.moved(addr@, host@, path@),
    {
        let ghost all = texts(self.headers@);
        let ghost keep = |header: Seq<char>| !names_host(header);
        let host_field = to_lowercase("Host:");
        let mut kept: Vec<String> = Vec::new();
        let mut i: usize = 0;
        assert(all.take(0) =~= Seq::empty());
        proof {
            reveal(Seq::filter);
        }
        assert(texts(kept@) =~= all.take(0).filter(keep));
        while i < self.headers.len()
            invariant
                0 <= i <= self.headers@.len(),
                all == texts(self.headers@),
                keep == (|header: Seq<char>| !names_host(header)),
                host_field@ == crate::text::lowercase("Host:"@),
                texts(kept@) == all.take(i as int).filter(keep),
            decreases self.headers@.len() - i,
        {
            proof {
                reveal(Seq::filter);
                assert(all.take(i + 1).drop_last() =~= all.take(i as int));
                assert(all.take(i + 1).last() == self.headers@[i as int]@);
            }
            let header = to_lowercase(self.headers[i].as_str());
            if !starts_with(header.as_str(), host_field.as_str()) {
                let ghost before = kept@;
                kept.push(self.headers[i].clone());
                assert(texts(kept@) =~= texts(before).push(self.headers@[i as int]@));
            }
            i = i + 1;
        }
        assert(all.take(i as int) =~= all);
        self.addr = addr.to_owned();
        self.host = host;
        self.path = path;
        self.headers = kept;
    }

    /// The text of the request up to its body, where `given` are the header
    /// fields that the user gives.
    pub fn get_request_given(&self, given: &GivenFields) -> (res: String)
        ensures
            res@ == self@.text_given(*given),
    {
        let mut request = self.method.to_string();
        request.append(" ");
        request.append(self.path.as_str());
        request.append(" HTTP/1.1\r\n");
        request.append(self.default_lines(given).as_str());
        request.append(lines_text(&self.headers).as_str());
        request.append(LINE_END);
        request
    }

    /// The header lines that the user does not give.
    fn default_lines(&self, given: &GivenFields) -> (res: String)
        ensures
            res@ == self@.default_lines(*given),
    {
        let connection = if self.config.keepalive {
            "keep-alive"
        } else {
            "close"
        };
        let useragent = self.config.useragent.as_str();
        let mut headers = default_text(given.host, "Host: ", self.host.as_str());
        headers.append(default_text(given.accept, "Accept: ", "*/*").as_str());
        headers.append(default_text(given.connection, "Connection: ", connection).as_str());
        headers.append(default_text(given.user_agent, "User-Agent: ", useragent).as_str());
        match &self.body {
            Some(body) => {
                let length = decimal_text(body.len());
                headers.append(
                    default_text(given.content_length, "Content-Length: ", length.as_str()).as_str(),
                );
            },
            None => {
                assert(headers@ =~= headers@ + Seq::<char>::empty());
            },
        }
        headers
    }

    /// The text of the request up to its body.
    pub fn get_request(&self) -> (res: String)
        ensures
            res@ == self@.text(),
    {
        proof {
            assert(self.headers@.map_values(|item: String| item.text()) =~= texts(self.headers@));
        }
        let headers = self.headers.as_slice();
        let given = GivenFields {
            host: caseless_find(headers, "Host:"),
            accept: caseless_find(headers, "Accept:"),
            connection: caseless_find(headers, "Connection:"),
            user_agent: caseless_find(headers, "User-Agent:"),
            content_length: caseless_find(headers, "Content-Length:"),
        };
        self.get_request_given(&given)
    }

    /// The request as it is sent.
    pub fn get_message(&self) -> (res: Vec<u8>)
        ensures
            res@ == self@.message(),
    {
        let text = self.get_request();
        let mut message = vstd::slice::slice_to_vec(text.as_str().as_bytes());
        let ghost head = message@;
        if let Some(body) = &self.body {
            message.extend_from_slice(body.as_slice());
            assert(message@ =~= head + body@);
        } else {
            assert(message@ =~= head + Seq::<u8>::empty());
        }
        message
    }
}

impl Clone for ProducerRequest {
    fn clone(&self) -> (res: Self)
        ensures
            res@ == self@,
    {
        let res = ProducerRequest {
            config: self.config.clone(),
            addr: self.addr.clone(),
            host: self.host.clone(),
            path: self.path.clone(),
            method: self.method,
            headers: self.headers.clone(),
            body: match &self.body {
                Some(body) => Some(body.clone()),
                None => None,
            },
        };
        assert(res.headers@ =~= self.headers@);
        assert(res@.body =~= self@.body) by {
            if let Some(body) = self.body {
                assert(res.body.unwrap()@ =~= body@);
            }
        }
        res
    }
}

/// What the producer does next.
#[derive(Debug, Clone, Copy, PartialEq, Eq, Structural)]
pub enum ProduceStep {
    /// Put another request into the queue.
    Send,
    /// No more requests are made.
    Stop,
}

/// How many seconds the producer waits for room in the queue.
pub const QUEUE_TIMEOUT_SECS: u64 = 10;

/// What the producer does next where `sent` of `nrequests` requests are in the
/// queue; `timed_out` tells whether it has waited for room in vain.
pub open spec fn produce_step(sent: int, nrequests: int, timed_out: bool) -> ProduceStep {
    if !timed_out && sent < nrequests {
        ProduceStep::Send
    } else {
        ProduceStep::Stop
    }
}

/// Says what the producer does next where `sent` of `nrequests` requests are in
/// the queue; `timed_out` tells whether it has waited for room in vain.
pub fn produce(sent: usize, nrequests: usize, timed_out: bool) -> (res: ProduceStep)
    ensures
        res == produce_step(sent as int, nrequests as int, timed_out),
        res == ProduceStep::Send <==> sent < nrequests && !timed_out,
{
    if !timed_out && sent < nrequests {
        ProduceStep::Send
    } else {
        ProduceStep::Stop
    }
}

/// How many requests come into the queue in all where `sent` are in it.
/// `in_time` tells of each further attempt whether there was room in time.
pub open spec fn produced(sent: int, nrequests: int, in_time: Seq<bool>) -> int
    decreases in_time.len(),
{
    if in_time.len() == 0 {
        sent
    } else {
        match produce_step(sent, nrequests, false) {
            ProduceStep::Stop => sent,
            ProduceStep::Send => if in_time[0] {
                produced(sent + 1, nrequests, in_time.skip(1))
            } else {
                match produce_step(sent, nrequests, true) {
                    ProduceStep::Send => produced(sent, nrequests, in_time.skip(1)),
                    ProduceStep::Stop => sent,
                }
            },
        }
    }
}

/// As many requests are made as were asked for where there is always room in
/// time; where there is not, those that were made before.
pub proof fn law_all_requests_are_made(nrequests: nat, in_time: Seq<bool>)
    requires
        nrequests <= in_time.len(),
    ensures
        produced(0, nrequests as int, in_time) == match in_time.index_of_first(false) {
            Some(late) => if late < nrequests {
                late
            } else {
                nrequests as int
            },
            None => nrequests as int,
        },
{
    in_time.index_of_first_ensures(false);
    assert(in_time.skip(0) =~= in_time);
    lemma_produced(0, nrequests as int, in_time);
}

proof fn lemma_produced(sent: int, nrequests: int, in_time: Seq<bool>)
    requires
        0 <= sent <= nrequests <= in_time.len(),
        forall|i: int| 0 <= i < sent ==> in_time[i],
    ensures
        ({
            let end = produced(sent, nrequests, in_time.skip(sent));
            &&& sent <= end <= nrequests
            &&& forall|i: int| sent <= i < end ==> in_time[i]
            &&& end < nrequests ==> !in_time[end]
        }),
    decreases nrequests - sent,
{
    let rest = in_time.skip(sent);
    if sent < nrequests && rest[0] {
        assert(in_time[sent]);
        assert(rest.skip(1) =~= in_time.skip(sent + 1));
        lemma_produced(sent + 1, nrequests, in_time);
    }
}

/// A method is the one that its name names, in letters of either case.
pub proof fn law_method_name_reads_back(method: RequestMethod, text: Seq<char>)
    requires
        crate::text::uppercase(text) == crate::text::uppercase(method.name()),
    ensures
        method_named(crate::text::uppercase(text)) == Some(method),
{
    reveal_strlit("GET");
    reveal_strlit("POST");
    reveal_strlit("HEAD");
    let name = method.name();
    assert(is_ascii_chars(name));
    assert(crate::text::uppercase(name) =~= name);
    assert("GET"@.len() == 3 && "POST"@.len() == 4 && "HEAD"@.len() == 4);
    assert("POST"@[0] != "HEAD"@[0]);
}

/// Whether `part` stands somewhere in `whole`.
pub open spec fn contains(whole: Seq<char>, part: Seq<char>) -> bool {
    exists|before: Seq<char>, after: Seq<char>| whole == #[trigger] (before + part + after)
}

/// What stands in a part stands in the whole.
proof fn lemma_contains_within(before: Seq<char>, part: Seq<char>, after: Seq<char>, inner: Seq<char>)
    requires
        contains(part, inner),
    ensures
        contains(before + part + after, inner),
{
    let (b, a) = choose|b: Seq<char>, a: Seq<char>| part == #[trigger] (b + inner + a);
    assert(before + part + after =~= (before + b) + inner + (a + after));
}

/// Every header line that the user gives is sent as it is.
pub proof fn law_user_lines_are_sent(request: RequestModel, i: int)
    requires
        0 <= i < request.headers.len(),
    ensures
        contains(request.text(), request.headers[i] + LINE_END@),
{
    lemma_line_sent(request.headers, i);
    let head = request.method.name() + " "@ + request.path + " HTTP/1.1\r\n"@
        + request.default_lines(request.given());
    lemma_contains_within(
        head,
        lines(request.headers),
        LINE_END@,
        request.headers[i] + LINE_END@,
    );
}

proof fn lemma_line_sent(headers: Seq<Seq<char>>, i: int)
    requires
        0 <= i < headers.len(),
    ensures
        contains(lines(headers), headers[i] + LINE_END@),
    decreases headers.len(),
{
    let line = headers[i] + LINE_END@;
    let before = lines(headers.drop_last());
    let last = headers.last() + LINE_END@;
    if i == headers.len() - 1 {
        assert(lines(headers) =~= before + line + Seq::<char>::empty());
    } else {
        lemma_line_sent(headers.drop_last(), i);
        lemma_contains_within(Seq::empty(), before, last, line);
        assert(lines(headers) =~= Seq::<char>::empty() + before + last);
    }
}

/// A request whose user gives no host names the host of its address.
pub proof fn law_host_is_named(request: RequestModel)
    requires
        !request.given().host,
    ensures
        contains(request.text(), LINE_END@ + "Host: "@ + request.host + LINE_END@),
{
    reveal_strlit(" HTTP/1.1\r\n");
    reveal_strlit(" HTTP/1.1");
    reveal_strlit("\r\n");
    let first = request.method.name() + " "@ + request.path;
    let host = "Host: "@ + request.host + LINE_END@;
    let defaults = request.default_lines(request.given());
    let rest = defaults.skip(host.len() as int);
    assert(default_line(request.given().host, "Host: "@, request.host) == host);
    assert(defaults =~= host + rest) by {
        assert(defaults.take(host.len() as int) =~= host);
    }
    assert(" HTTP/1.1\r\n"@ =~= " HTTP/1.1"@ + LINE_END@);
    let before = first + " HTTP/1.1"@;
    let part = LINE_END@ + "Host: "@ + request.host + LINE_END@;
    let after = rest + lines(request.headers) + LINE_END@;
    assert(part =~= LINE_END@ + host);
    assert(request.text() =~= before + part + after);
}

/// A request with a body whose length the user does not give tells how long the
/// body is.
pub proof fn law_body_length_is_told(request: RequestModel)
    requires
        request.body is Some,
        !request.given().content_length,
    ensures
        contains(
            request.text(),
            "Content-Length: "@ + crate::text::decimal(request.body.unwrap().len()) + LINE_END@,
        ),
{
    let given = request.given();
    let line = "Content-Length: "@ + crate::text::decimal(request.body.unwrap().len()) + LINE_END@;
    let defaults = request.default_lines(given);
    let others = defaults.take(defaults.len() - line.len());
    assert(defaults =~= others + line) by {
        assert(defaults.skip(defaults.len() - line.len()) =~= line);
    }
    let before = request.method.name() + " "@ + request.path + " HTTP/1.1\r\n"@ + others;
    let after = lines(request.headers) + LINE_END@;
    assert(request.text() =~= before + line + after);
}

/// A request that was sent to another address names the host there, and none
/// that the user gave for the old one.
pub proof fn law_redirect_names_new_host(request: RequestModel, addr: Seq<char>, url: UrlModel)
    ensures
        !request.redirected(addr, url).given().host,
        contains(
            request.redirected(addr, url).text(),
            LINE_END@ + "Host: "@ + url.hostpath().0 + LINE_END@,
        ),
{
    let sent = request.redirected(addr, url);
    let keep = |header: Seq<char>| !names_host(header);
    assert forall|i: int| 0 <= i < sent.headers.len() implies !crate::text::lowercase(
        "Host:"@,
    ).is_prefix_of(crate::text::lowercase(#[trigger] sent.headers[i])) by {
        request.headers.lemma_filter_pred(keep, i);
        assert(!names_host(sent.headers[i]));
    }
    law_host_is_named(sent);
}

/// Of several addresses that a request is sent to one after the other, only the
/// last counts.
pub proof fn law_last_redirect_counts(
    request: RequestModel,
    first: Seq<char>,
    first_url: UrlModel,
    last: Seq<char>,
    last_url: UrlModel,
)
    ensures
        request.redirected(first, first_url).redirected(last, last_url) == request.redirected(
            last,
            last_url,
        ),
{
    let keep = |header: Seq<char>| !names_host(header);
    let kept = request.headers.filter(keep);
    assert forall|i: int| 0 <= i < kept.len() implies keep(#[trigger] kept[i]) by {
        request.headers.lemma_filter_pred(keep, i);
    }
    lemma_filter_all(kept, keep);
}

proof fn lemma_filter_all(list: Seq<Seq<char>>, keep: spec_fn(Seq<char>) -> bool)
    requires
        forall|i: int| 0 <= i < list.len() ==> keep(#[trigger] list[i]),
    ensures
        list.filter(keep) == list,
    decreases list.len(),
{
    reveal(Seq::filter);
    if list.len() > 0 {
        assert forall|i: int| 0 <= i < list.drop_last().len() implies keep(
            #[trigger] list.drop_last()[i],
        ) by {
            assert(list.drop_last()[i] == list[i]);
        }
        lemma_filter_all(list.drop_last(), keep);
        assert(list.drop_last().push(list.last()) =~= list);
        assert(keep(list[list.len() - 1]));
    } else {
        assert(list.filter(keep) =~= list);
    }
}

/// The methods are named by their names alone, letter for letter.
pub proof fn law_only_names_name_methods(text: Seq<char>, method: RequestMethod)
    ensures
        method_named(text) == Some(method) <==> text == match method {
            RequestMethod::Get => "GET"@,
            RequestMethod::Post => "POST"@,
            RequestMethod::Head => "HEAD"@,
        },
        method.name() == match method {
            RequestMethod::Get => "GET"@,
            RequestMethod::Post => "POST"@,
            RequestMethod::Head => "HEAD"@,
        },
{
    reveal_strlit("GET");
    reveal_strlit("POST");
    reveal_strlit("HEAD");
    assert("GET"@.len() == 3 && "POST"@.len() == 4 && "HEAD"@.len() == 4);
    assert("POST"@[0] != "HEAD"@[0]);
}

/// Every text is looked at: what is found in two lists is what is found in one
/// of them or in the other, and in a list of one text that text decides.
pub proof fn law_every_text_is_looked_at(
    first: Seq<Seq<char>>,
    second: Seq<Seq<char>>,
    text: Seq<char>,
    needle: Seq<char>,
)
    ensures
        has_caseless(first + second, needle) <==> has_caseless(first, needle) || has_caseless(
            second,
            needle,
        ),
        has_caseless(seq![text], needle) <==> crate::text::lowercase(needle).is_prefix_of(
            crate::text::lowercase(text),
        ),
        !has_caseless(Seq::empty(), needle),
{
    let both = first + second;
    if has_caseless(first, needle) {
        let i = choose|i: int|
            0 <= i < first.len() && crate::text::lowercase(needle).is_prefix_of(
                crate::text::lowercase(#[trigger] first[i]),
            );
        assert(both[i] == first[i]);
    }
    if has_caseless(second, needle) {
        let i = choose|i: int|
            0 <= i < second.len() && crate::text::lowercase(needle).is_prefix_of(
                crate::text::lowercase(#[trigger] second[i]),
            );
        assert(both[first.len() + i] == second[i]);
    }
    if has_caseless(both, needle) {
        let i = choose|i: int|
            0 <= i < both.len() && crate::text::lowercase(needle).is_prefix_of(
                crate::text::lowercase(#[trigger] both[i]),
            );
        if i < first.len() {
            assert(both[i] == first[i]);
        } else {
            assert(both[i] == second[i - first.len()]);
        }
    }
    assert(seq![text][0] == text);
}

/// An ASCII line is found by an ASCII needle exactly where its first characters
/// are those of the needle but for the case of letters.
pub proof fn law_ascii_lines_are_found(line: Seq<char>, needle: Seq<char>)
    requires
        is_ascii_chars(line),
        is_ascii_chars(needle),
    ensures
        has_caseless(seq![line], needle) <==> needle.len() <= line.len() && (forall|i: int|
            0 <= i < needle.len() ==> crate::text::ascii_lower(#[trigger] needle[i])
                == crate::text::ascii_lower(line[i])),
{
    law_every_text_is_looked_at(Seq::empty(), Seq::empty(), line, needle);
    let lower_needle = crate::text::lowercase(needle);
    let lower_line = crate::text::lowercase(line);
    if lower_needle.is_prefix_of(lower_line) {
        assert forall|i: int| 0 <= i < needle.len() implies crate::text::ascii_lower(
            #[trigger] needle[i],
        ) == crate::text::ascii_lower(line[i]) by {
            assert(lower_needle[i] == lower_line[i]);
        }
    }
    if needle.len() <= line.len() && forall|i: int|
        0 <= i < needle.len() ==> crate::text::ascii_lower(#[trigger] needle[i])
            == crate::text::ascii_lower(line[i]) {
        assert forall|i: int| 0 <= i < needle.len() implies lower_needle[i] == lower_line[i] by {
            assert(crate::text::ascii_lower(needle[i]) == crate::text::ascii_lower(line[i]));
        }
        assert(lower_needle =~= lower_line.subrange(0, lower_needle.len() as int));
    }
}

/// The lines that a user gives are sent one after the other, in their order,
/// each with its end and nothing between them.
pub proof fn law_lines_follow_each_other(
    first: Seq<Seq<char>>,
    second: Seq<Seq<char>>,
    line: Seq<char>,
)
    ensures
        lines(first + second) == lines(first) + lines(second),
        lines(seq![line]) == line + "\r\n"@,
        lines(Seq::empty()) == Seq::<char>::empty(),
    decreases second.len(),
{
    reveal_with_fuel(lines, 2);
    assert(seq![line].drop_last() =~= Seq::empty());
    assert(lines(seq![line]) =~= line + "\r\n"@);
    if second.len() == 0 {
        assert(first + second =~= first);
        assert(lines(first) + lines(second) =~= lines(first));
    } else {
        let both = first + second;
        law_lines_follow_each_other(first, second.drop_last(), line);
        assert(both.drop_last() =~= first + second.drop_last());
        assert(both.last() == second.last());
        assert(lines(both) =~= lines(first) + lines(second));
    }
}

/// A line, or nothing where the user gives that field.
pub open spec fn unless_given(headers: Seq<Seq<char>>, field: Seq<char>, line: Seq<char>) -> Seq<
    char,
> {
    if has_caseless(headers, field) {
        Seq::empty()
    } else {
        line
    }
}

/// A request is its first line, then a line for each field that the user does
/// not give, then the lines that the user gives, then an empty line. Whether the
/// connection is to be kept depends on nothing but keepalive, and only a request
/// with a body has a length.
pub proof fn law_lines_of_a_request(request: RequestModel)
    ensures
        ({
            let connection = if request.keepalive {
                "keep-alive"@
            } else {
                "close"@
            };
            let defaults = unless_given(
                request.headers,
                "Host:"@,
                "Host: "@ + request.host + "\r\n"@,
            ) + unless_given(request.headers, "Accept:"@, "Accept: "@ + "*/*"@ + "\r\n"@)
                + unless_given(
                request.headers,
                "Connection:"@,
                "Connection: "@ + connection + "\r\n"@,
            ) + unless_given(
                request.headers,
                "User-Agent:"@,
                "User-Agent: "@ + request.useragent + "\r\n"@,
            ) + match request.body {
                Some(body) => unless_given(
                    request.headers,
                    "Content-Length:"@,
                    "Content-Length: "@ + crate::text::decimal(body.len()) + "\r\n"@,
                ),
                None => Seq::empty(),
            };
            request.text() == request.method.name() + " "@ + request.path + " HTTP/1.1\r\n"@
                + defaults + lines(request.headers) + "\r\n"@
        }),
{
}

/// Which lines stand in for the user's is decided by which fields the user
/// gives, each on its own.
pub proof fn law_lines_that_stand_in(request: RequestModel, given: GivenFields)
    ensures
        ({
            let connection = if request.keepalive {
                "keep-alive"@
            } else {
                "close"@
            };
            let line = |given: bool, text: Seq<char>|
                if given {
                    Seq::<char>::empty()
                } else {
                    text
                };
            let defaults = line(given.host, "Host: "@ + request.host + "\r\n"@) + line(
                given.accept,
                "Accept: "@ + "*/*"@ + "\r\n"@,
            ) + line(given.connection, "Connection: "@ + connection + "\r\n"@) + line(
                given.user_agent,
                "User-Agent: "@ + request.useragent + "\r\n"@,
            ) + match request.body {
                Some(body) => line(
                    given.content_length,
                    "Content-Length: "@ + crate::text::decimal(body.len()) + "\r\n"@,
                ),
                None => Seq::empty(),
            };
            request.text_given(given) == request.method.name() + " "@ + request.path
                + " HTTP/1.1\r\n"@ + defaults + lines(request.headers) + "\r\n"@
        }),
{
}

/// Whether a text is made of whole lines.
spec fn ends_line(text: Seq<char>) -> bool {
    text.len() >= 2 && text.skip(text.len() - 2) == "\r\n"@
}

proof fn lemma_ends_line(before: Seq<char>, line: Seq<char>)
    requires
        ends_line(before),
        line.len() == 0 || ends_line(line),
    ensures
        ends_line(before + line),
{
    let both = before + line;
    if line.len() == 0 {
        assert(both =~= before);
    } else {
        assert(both.skip(both.len() - 2) =~= line.skip(line.len() - 2));
    }
}

proof fn lemma_field_line(name: Seq<char>, value: Seq<char>)
    ensures
        ends_line(name + value + "\r\n"@),
{
    reveal_strlit("\r\n");
    let line = name + value + "\r\n"@;
    assert(line.skip(line.len() - 2) =~= "\r\n"@);
}

proof fn lemma_line_stands(before: Seq<char>, line: Seq<char>, after: Seq<char>)
    requires
        ends_line(before),
    ensures
        contains(before + line + after, "\r\n"@ + line),
{
    reveal_strlit("\r\n");
    let start = before.take(before.len() - 2);
    assert(before =~= start + "\r\n"@);
    assert(before + line + after =~= start + ("\r\n"@ + line) + after);
}

/// The lines of a request before and behind each line that stands in for one
/// that the user does not give.
proof fn lemma_five_lines(
    first: Seq<char>,
    a: Seq<char>,
    b: Seq<char>,
    c: Seq<char>,
    d: Seq<char>,
    e: Seq<char>,
    rest: Seq<char>,
    end: Seq<char>,
)
    requires
        ends_line(first),
        a.len() == 0 || ends_line(a),
        b.len() == 0 || ends_line(b),
        c.len() == 0 || ends_line(c),
        d.len() == 0 || ends_line(d),
    ensures
        ({
            let text = first + (a + b + c + d + e) + rest + end;
            &&& contains(text, "\r\n"@ + a)
            &&& contains(text, "\r\n"@ + b)
            &&& contains(text, "\r\n"@ + c)
            &&& contains(text, "\r\n"@ + d)
            &&& contains(text, "\r\n"@ + e)
        }),
{
    let none = Seq::<char>::empty();
    let block = a + b + c + d + e;
    lemma_ends_line(first, none);
    lemma_ends_line(first, a);
    lemma_ends_line(first + a, b);
    lemma_ends_line(first + a + b, c);
    lemma_ends_line(first + a + b + c, d);
    assert(first + a + b =~= first + (a + b));
    assert(first + a + b + c =~= first + (a + b + c)) by {
        lemma_regroup(first, a + b, c);
    }
    assert(first + a + b + c + d =~= first + (a + b + c + d)) by {
        lemma_regroup(first, a + b + c, d);
    }
    assert(block == none + a + (b + c + d + e)) by {
        assert(none + a =~= a);
        lemma_regroup(a, b, c);
        lemma_regroup(a, b + c, d);
        lemma_regroup(a, b + c + d, e);
    }
    assert(block == a + b + (c + d + e)) by {
        lemma_regroup(a + b, c, d);
        lemma_regroup(a + b, c + d, e);
    }
    assert(block == a + b + c + (d + e)) by {
        lemma_regroup(a + b + c, d, e);
    }
    assert(block =~= a + b + c + d + e + none);
    lemma_line_within(first, none, a, b + c + d + e, rest, end);
    lemma_line_within(first, a, b, c + d + e, rest, end);
    lemma_line_within(first, a + b, c, d + e, rest, end);
    lemma_line_within(first, a + b + c, d, e, rest, end);
    lemma_line_within(first, a + b + c + d, e, none, rest, end);
}

proof fn lemma_regroup(a: Seq<char>, b: Seq<char>, c: Seq<char>)
    ensures
        a + (b + c) == a + b + c,
{
    assert(a + (b + c) =~= a + b + c);
}

proof fn lemma_line_within(
    first: Seq<char>,
    before: Seq<char>,
    line: Seq<char>,
    after: Seq<char>,
    rest: Seq<char>,
    end: Seq<char>,
)
    requires
        ends_line(first + before),
    ensures
        contains(first + (before + line + after) + rest + end, "\r\n"@ + line),
{
    lemma_line_stands(first + before, line, after + rest + end);
    assert(first + (before + line + after) + rest + end =~= first + before + line + (after + rest
        + end));
}

/// The lines that every request has unless the user gives them, each at the
/// start of a line: its host, that any answer is accepted, whether the connection
/// is to be kept and what the client calls itself, whatever the method, the body
/// and the other lines are. A request with a body also tells its length.
pub proof fn law_fields_that_are_not_given(request: RequestModel)
    ensures
        !has_caseless(request.headers, "Host:"@) ==> contains(
            request.text(),
            "\r\n"@ + ("Host: "@ + request.host + "\r\n"@),
        ),
        !has_caseless(request.headers, "Accept:"@) ==> contains(
            request.text(),
            "\r\n"@ + ("Accept: "@ + "*/*"@ + "\r\n"@),
        ),
        !has_caseless(request.headers, "Connection:"@) ==> contains(
            request.text(),
            "\r\n"@ + ("Connection: "@ + (if request.keepalive {
                "keep-alive"@
            } else {
                "close"@
            }) + "\r\n"@),
        ),
        !has_caseless(request.headers, "User-Agent:"@) ==> contains(
            request.text(),
            "\r\n"@ + ("User-Agent: "@ + request.useragent + "\r\n"@),
        ),
        !has_caseless(request.headers, "Content-Length:"@) ==> (request.body matches Some(body)
            ==> contains(
            request.text(),
            "\r\n"@ + ("Content-Length: "@ + crate::text::decimal(body.len()) + "\r\n"@),
        )),
{
    law_lines_of_a_request(request);
    reveal_strlit(" HTTP/1.1\r\n");
    reveal_strlit("\r\n");
    let start = request.method.name() + " "@ + request.path;
    let first = start + " HTTP/1.1\r\n"@;
    assert(ends_line(first)) by {
        assert(first.skip(first.len() - 2) =~= "\r\n"@);
    }
    let connection = if request.keepalive {
        "keep-alive"@
    } else {
        "close"@
    };
    lemma_field_line("Host: "@, request.host);
    lemma_field_line("Accept: "@, "*/*"@);
    lemma_field_line("Connection: "@, connection);
    lemma_field_line("User-Agent: "@, request.useragent);
    let a = unless_given(request.headers, "Host:"@, "Host: "@ + request.host + "\r\n"@);
    let b = unless_given(request.headers, "Accept:"@, "Accept: "@ + "*/*"@ + "\r\n"@);
    let c = unless_given(
        request.headers,
        "Connection:"@,
        "Connection: "@ + connection + "\r\n"@,
    );
    let d = unless_given(
        request.headers,
        "User-Agent:"@,
        "User-Agent: "@ + request.useragent + "\r\n"@,
    );
    let e = match request.body {
        Some(body) => unless_given(
            request.headers,
            "Content-Length:"@,
            "Content-Length: "@ + crate::text::decimal(body.len()) + "\r\n"@,
        ),
        None => Seq::empty(),
    };
    lemma_five_lines(first, a, b, c, d, e, lines(request.headers), "\r\n"@);
}

/// A request whose user gives no such field says that the connection is to be
/// kept where keepalive is set, and that it is to be closed where it is not,
/// whatever its method and its body.
pub proof fn law_keepalive_is_asked_for(request: RequestModel)
    requires
        !has_caseless(request.headers, "Connection:"@),
    ensures
        contains(
            request.text(),
            LINE_END@ + "Connection: "@ + (if request.keepalive {
                "keep-alive"@
            } else {
                "close"@
            }) + LINE_END@,
        ),
{
    let connection = if request.keepalive {
        "keep-alive"@
    } else {
        "close"@
    };
    law_fields_that_are_not_given(request);
    assert("\r\n"@ + ("Connection: "@ + connection + "\r\n"@) =~= LINE_END@ + "Connection: "@
        + connection + LINE_END@);
}

/// A request is sent as its text in UTF-8 and then its body, byte for byte; a
/// request without a body is its text alone.
pub proof fn law_message_ends_in_the_body(request: RequestModel)
    ensures
        ({
            let text = encode_utf8(request.text());
            &&& request.message().take(text.len() as int) == text
            &&& request.body is None ==> request.message() == text
            &&& request.body matches Some(body) ==> request.message().len() == text.len()
                + body.len() && request.message().skip(text.len() as int) == body
        }),
{
    let text = encode_utf8(request.text());
    assert(request.message().take(text.len() as int) =~= text);
    match request.body {
        Some(body) => {
            assert(request.message().skip(text.len() as int) =~= body);
        },
        None => {
            assert(request.message() =~= text);
        },
    }
}

/// A request that is sent to another address asks the host there for what the
/// address names. It loses the lines that give a host, and nothing else about it
/// changes, nor does the order of its lines.
pub proof fn law_redirect_keeps_the_rest(
    request: RequestModel,
    addr: Seq<char>,
    host: Seq<char>,
    path: Seq<char>,
)
    ensures
        ({
            let moved = request.moved(addr, host, path);
            &&& moved.addr == addr
            &&& moved.host == host
            &&& moved.path == path
            &&& moved.method == request.method
            &&& moved.body == request.body
            &&& moved.keepalive == request.keepalive
            &&& moved.useragent == request.useragent
            &&& moved.headers == request.headers.filter(
                |header: Seq<char>|
                    !crate::text::lowercase("Host:"@).is_prefix_of(crate::text::lowercase(header)),
            )
            &&& forall|i: int|
                0 <= i < request.headers.len() && !has_caseless(
                    seq![#[trigger] request.headers[i]],
                    "Host:"@,
                ) ==> moved.headers.contains(request.headers[i])
        }),
{
    let moved = request.moved(addr, host, path);
    let keep = |header: Seq<char>|
        !crate::text::lowercase("Host:"@).is_prefix_of(crate::text::lowercase(header));
    assert(keep =~= (|header: Seq<char>| !names_host(header)));
    assert forall|i: int|
        0 <= i < request.headers.len() && !has_caseless(
            seq![#[trigger] request.headers[i]],
            "Host:"@,
        ) implies moved.headers.contains(request.headers[i]) by {
        law_every_text_is_looked_at(Seq::empty(), Seq::empty(), request.headers[i], "Host:"@);
        assert(keep(request.headers[i]));
        request.headers.lemma_filter_contains(keep, i);
    }
}

/// A request that is sent to the address that a URL names asks its host, or
/// else this machine, for its path and query.
pub proof fn law_redirect_follows_the_url(request: RequestModel, addr: Seq<char>, url: UrlModel)
    ensures
        request.redirected(addr, url).addr == addr,
        request.redirected(addr, url).host == url.hostpath().0,
        request.redirected(addr, url).path == url.hostpath().1,
        request.redirected(addr, url) == request.moved(addr, url.hostpath().0, url.hostpath().1),
{
}

} // verus!
