//! A fetcher takes requests one after the other, keeps or drops its connection
//! and follows redirections.
//!
//! The caller does the connecting, sending and receiving. It asks for the next
//! step, carries it out and says how it went.

use crate::address::NotAUrl;
use crate::producer::{ProducerRequest, RequestMethod};
use crate::response::{Response, ResponseModel};
use crate::text::same_text;
use vstd::prelude::*;

verus! {

/// How an attempt to reach one of the addresses of a host went.
#[derive(Debug, Clone, Copy, PartialEq, Eq, Structural)]
pub enum Attempt {
    /// The connection is there and can be written to.
    Connected,
    /// No connection came about in time.
    NotConnected,
    /// The connection cannot be written to.
    NotWritable,
}

/// What to do next to connect to a host with several addresses.
#[derive(Debug, Clone, Copy, PartialEq, Eq, Structural)]
pub enum OpenStep {
    /// Try the address with this index.
    Try(usize),
    /// Use the connection to the address with this index.
    Use(usize),
    /// The host cannot be reached.
    Fail,
}

/// How many milliseconds an attempt may take.
pub const CONNECT_TIMEOUT_MILLIS: u64 = 100;

/// What to do next to connect to a host that has `addresses` addresses, where
/// `last` is the index of the address that was tried last and how that went.
pub open spec fn open_step(addresses: usize, last: Option<(usize, Attempt)>) -> OpenStep {
    match last {
        Some((index, Attempt::Connected)) => OpenStep::Use(index),
        Some((index, _)) => if index + 1 < addresses {
            OpenStep::Try((index + 1) as usize)
        } else {
            OpenStep::Fail
        },
        None => if addresses > 0 {
            OpenStep::Try(0)
        } else {
            OpenStep::Fail
        },
    }
}

/// Says what to do next to connect to a host that has `addresses` addresses,
/// where `last` is the index of the address that was tried last and how that
/// went.
pub fn open_connection(addresses: usize, last: Option<(usize, Attempt)>) -> (res: OpenStep)
    requires
        last matches Some((index, _)) ==> index < addresses,
    ensures
        res == open_step(addresses, last),
        res matches OpenStep::Try(index) ==> index < addresses,
{
    let next: usize = match last {
        Some((index, Attempt::Connected)) => {
            return OpenStep::Use(index);
        },
        Some((index, _)) => index + 1,
        None => 0,
    };
    if next < addresses {
        OpenStep::Try(next)
    } else {
        OpenStep::Fail
    }
}

/// Where connecting to a host ends, from the step after `last` on, where
/// `outcomes` are how an attempt at each address goes.
pub open spec fn open_end(outcomes: Seq<Attempt>, last: Option<(usize, Attempt)>) -> OpenStep
    decreases
            outcomes.len() - match last {
                Some((index, _)) => index + 1,
                None => 0,
            },
{
    match open_step(outcomes.len() as usize, last) {
        OpenStep::Try(index) => if outcomes.len() <= usize::MAX {
            open_end(outcomes, Some((index, outcomes[index as int])))
        } else {
            OpenStep::Fail
        },
        step => step,
    }
}

/// The first address that can be connected to is used, and connecting fails
/// only where none can.
pub proof fn law_first_address_that_answers_is_used(outcomes: Seq<Attempt>)
    requires
        outcomes.len() <= usize::MAX,
    ensures
        match outcomes.index_of_first(Attempt::Connected) {
            Some(index) => open_end(outcomes, None) == OpenStep::Use(index as usize),
            None => open_end(outcomes, None) == OpenStep::Fail,
        },
{
    outcomes.index_of_first_ensures(Attempt::Connected);
    if outcomes.len() > 0 {
        lemma_open_end(outcomes, 0);
    }
}

proof fn lemma_open_end(outcomes: Seq<Attempt>, index: usize)
    requires
        outcomes.len() <= usize::MAX,
        index < outcomes.len(),
        forall|i: int| 0 <= i < index ==> outcomes[i] != Attempt::Connected,
    ensures
        ({
            let end = open_end(outcomes, Some((index, outcomes[index as int])));
            match outcomes.index_of_first(Attempt::Connected) {
                Some(first) => end == OpenStep::Use(first as usize),
                None => end == OpenStep::Fail,
            }
        }),
    decreases outcomes.len() - index,
{
    outcomes.index_of_first_ensures(Attempt::Connected);
    if outcomes[index as int] != Attempt::Connected && index + 1 < outcomes.len() {
        lemma_open_end(outcomes, (index + 1) as usize);
    }
}

/// What a response means for the fetcher.
#[derive(Debug, Clone, Copy, PartialEq, Eq, Structural)]
pub enum Status {
    /// The request is done.
    Continue,
    /// The request is done, and so is the connection.
    CloseConnection,
    /// The request goes to another address.
    Redirect,
}

/// What a response means for the fetcher. A connection that is to be closed
/// comes before a redirection.
pub open spec fn response_status(response: ResponseModel) -> Status {
    if response.headers.contains_key("Connection"@) && response.headers["Connection"@]
        == "close"@ {
        Status::CloseConnection
    } else if response.is_redirect() {
        Status::Redirect
    } else {
        Status::Continue
    }
}

/// What a response means for the fetcher.
pub fn status_of(response: &Response) -> (res: Status)
    ensures
        res == response_status(response@),
        res == Status::CloseConnection <==> response@.headers.contains_key("Connection"@)
            && response@.headers["Connection"@] == "close"@,
        res == Status::Redirect <==> 300 <= response.status && response.status <= 400 && !(
        response@.headers.contains_key("Connection"@) && response@.headers["Connection"@]
            == "close"@),
{
    if let Some(connection) = response.headers.get("Connection") {
        if same_text(connection, "close") {
            return Status::CloseConnection;
        }
    }
    if response.is_redirect() {
        Status::Redirect
    } else {
        Status::Continue
    }
}

/// What is done about a response once its header has been read.
#[derive(Debug, Clone, Copy, PartialEq, Eq, Structural)]
pub struct Answer {
    pub status: Status,
    /// Whether a body may follow that has to be discarded.
    pub drop_body: bool,
}

/// What is done about a response to a request with this method: only the
/// response to a `HEAD` request never has a body.
pub open spec fn response_answer(method: RequestMethod, response: ResponseModel) -> Answer {
    Answer { status: response_status(response), drop_body: method != RequestMethod::Head }
}

/// What is done about a response to a request with this method.
pub fn answer(method: RequestMethod, response: &Response) -> (res: Answer)
    ensures
        res == response_answer(method, response@),
        res.drop_body <==> method == RequestMethod::Get || method == RequestMethod::Post,
{
    Answer { status: status_of(response), drop_body: method != RequestMethod::Head }
}

/// Decides what is done about a response to `request` once its header has been
/// read. A redirection sends the request to another address.
pub fn do_request(request: &mut ProducerRequest, response: &Response) -> (res: Result<
    Answer,
    NotAUrl,
>)
    requires
        response@.is_redirect() ==> response@.headers.contains_key("Location"@),
    ensures
        !(300 <= response.status && response.status <= 400) ==> res is Ok && final(request)@
            == old(request)@,
        300 <= response.status && response.status <= 400 ==> {
            let location = response@.headers["Location"@];
            match crate::address::parsed_url(location) {
                Some(url) => {
                    &&& res is Ok
                    &&& final(request)@.addr == location
                    &&& final(request)@.host == url.hostpath().0
                    &&& final(request)@.path == url.hostpath().1
                    &&& final(request)@.method == old(request)@.method
                    &&& final(request)@.body == old(request)@.body
                },
                None => res is Err && *final(request) == *old(request),
            }
        },
        res matches Ok(answer) ==> {
            let closes = response@.headers.contains_key("Connection"@)
                && response@.headers["Connection"@] == "close"@;
            &&& answer.status == if closes {
                Status::CloseConnection
            } else if 300 <= response.status && response.status <= 400 {
                Status::Redirect
            } else {
                Status::Continue
            }
            &&& answer.drop_body <==> old(request)@.method != RequestMethod::Head
        },
        ({
            let location = response@.headers["Location"@];
            let url = crate::address::parsed_url(location);
            if response@.is_redirect() && url is None {
                res is Err && *final(request) == *old(request)
            } else {
                &&& res == Ok::<Answer, NotAUrl>(
                    response_answer(old(request)@.method, response@),
                )
                &&& final(request)@ == if response@.is_redirect() {
                    old(request)@.redirected(location, url.unwrap())
                } else {
                    old(request)@
                }
            }
        }),
{
    if response.is_redirect() {
        if let Some(location) = response.headers.get("Location") {
            match request.redirect(location) {
                Ok(()) => {},
                Err(error) => {
                    return Err(error);
                },
            }
        }
    }
    Ok(answer(request.method(), response))
}

/// What a fetcher does next.
#[derive(Debug, Clone, Copy, PartialEq, Eq, Structural)]
pub enum FetchStep {
    /// Take the next request.
    Receive,
    /// Connect to the address of the request.
    Connect,
    /// Report the connection.
    ReportConnection,
    /// Send the request and read the response.
    Request,
    /// Report the request; `finished` tells whether it is done.
    ReportRequest { finished: bool },
    /// There are no more requests.
    Finish,
    /// The fetcher gives up.
    Fail,
}

/// How a step went.
#[derive(Debug, Clone, Copy, PartialEq, Eq, Structural)]
pub enum FetchEvent {
    /// As it should. There was a request, or the connection is there, or the
    /// report was delivered.
    Done,
    /// The response was read.
    Answered(Status),
    /// It could not be done. There are no more requests, or no connection came
    /// about, or the report was not delivered, or the request failed.
    Failed,
}

/// A fetcher between two steps.
#[derive(Debug, Clone, Copy, PartialEq, Eq, Structural)]
pub struct Fetcher {
    /// Whether the connection is kept for the next request.
    pub keepalive: bool,
    /// Whether there is a connection.
    pub connected: bool,
    pub step: FetchStep,
}

impl Fetcher {
    /// A report on a connection, and a request, need a connection.
    pub open spec fn wf(self) -> bool {
        self.step == FetchStep::ReportConnection || self.step == FetchStep::Request
            ==> self.connected
    }

    /// Whether `event` can come of the step that the fetcher does.
    pub open spec fn expects(self, event: FetchEvent) -> bool {
        match self.step {
            FetchStep::Finish | FetchStep::Fail => false,
            FetchStep::Request => event != FetchEvent::Done,
            _ => !(event is Answered),
        }
    }

    /// At the start of an attempt: a connection is made where there is none to
    /// use.
    pub open spec fn attempt(self) -> Fetcher {
        Fetcher {
            step: if self.connected && self.keepalive {
                FetchStep::Request
            } else {
                FetchStep::Connect
            },
            ..self
        }
    }

    /// The fetcher after a step that went as `event` says.
    pub open spec fn next(self, event: FetchEvent) -> Fetcher {
        match (self.step, event) {
            (FetchStep::Receive, FetchEvent::Done) => self.attempt(),
            (FetchStep::Receive, _) => Fetcher { step: FetchStep::Finish, ..self },
            (FetchStep::Connect, FetchEvent::Done) => Fetcher {
                step: FetchStep::ReportConnection,
                connected: true,
                ..self
            },
            (FetchStep::ReportConnection, FetchEvent::Done) => Fetcher {
                step: FetchStep::Request,
                ..self
            },
            (FetchStep::Request, FetchEvent::Answered(status)) => Fetcher {
                step: FetchStep::ReportRequest { finished: status != Status::Redirect },
                connected: status != Status::CloseConnection,
                ..self
            },
            (FetchStep::Request, _) => Fetcher {
                step: FetchStep::Receive,
                connected: false,
                ..self
            },
            (FetchStep::ReportRequest { finished }, FetchEvent::Done) => if finished {
                Fetcher { step: FetchStep::Receive, ..self }
            } else {
                self.attempt()
            },
            _ => Fetcher { step: FetchStep::Fail, ..self },
        }
    }

    /// A fetcher without a connection.
    pub fn new(keepalive: bool) -> (res: Self)
        ensures
            res == (Fetcher { keepalive, connected: false, step: FetchStep::Receive }),
            res.wf(),
    {
        Fetcher { keepalive, connected: false, step: FetchStep::Receive }
    }

    /// Starts an attempt.
    fn start_attempt(&mut self)
        ensures
            *final(self) == old(self).attempt(),
    {
        self.step = if !self.connected || !self.keepalive {
            FetchStep::Connect
        } else {
            FetchStep::Request
        };
    }

    /// Goes on after a step that went as `event` says.
    pub fn fetch(&mut self, event: FetchEvent) -> (res: FetchStep)
        requires
            old(self).wf(),
            old(self).expects(event),
        ensures
            *final(self) == old(self).next(event),
            res == final(self).step,
            final(self).wf(),
    {
        match (self.step, event) {
            (FetchStep::Receive, FetchEvent::Done) => {
                self.start_attempt();
            },
            (FetchStep::Receive, _) => {
                self.step = FetchStep::Finish;
            },
            (FetchStep::Connect, FetchEvent::Done) => {
                self.connected = true;
                self.step = FetchStep::ReportConnection;
            },
            (FetchStep::ReportConnection, FetchEvent::Done) => {
                self.step = FetchStep::Request;
            },
            (FetchStep::Request, FetchEvent::Answered(status)) => {
                let mut finished = true;
                match status {
                    Status::Redirect => {
                        finished = false;
                    },
                    Status::Continue => {},
                    Status::CloseConnection => {
                        self.connected = false;
                    },
                }
                self.step = FetchStep::ReportRequest { finished };
            },
            (FetchStep::Request, _) => {
                self.connected = false;
                self.step = FetchStep::Receive;
            },
            (FetchStep::ReportRequest { finished }, FetchEvent::Done) => {
                if finished {
                    self.step = FetchStep::Receive;
                } else {
                    self.start_attempt();
                }
            },
            _ => {
                self.step = FetchStep::Fail;
            },
        }
        self.step
    }
}

/// The fetcher after some steps that went as `events` say.
pub open spec fn run(f: Fetcher, events: Seq<FetchEvent>) -> Fetcher
    decreases events.len(),
{
    if events.len() == 0 {
        f
    } else {
        run(f, events.drop_last()).next(events.last())
    }
}

/// Whether each of `events` can come of the step that it comes after.
pub open spec fn expected(f: Fetcher, events: Seq<FetchEvent>) -> bool
    decreases events.len(),
{
    events.len() > 0 ==> expected(f, events.drop_last()) && run(f, events.drop_last()).expects(
        events.last(),
    )
}

/// How many of some events are responses that were read.
pub open spec fn answers(events: Seq<FetchEvent>) -> nat
    decreases events.len(),
{
    if events.len() == 0 {
        0
    } else {
        answers(events.drop_last()) + if events.last() is Answered {
            1nat
        } else {
            0nat
        }
    }
}

/// How many reports on requests some events lead to.
pub open spec fn reports(f: Fetcher, events: Seq<FetchEvent>) -> nat
    decreases events.len(),
{
    if events.len() == 0 {
        0
    } else {
        reports(f, events.drop_last()) + if run(f, events).step is ReportRequest {
            1nat
        } else {
            0nat
        }
    }
}

/// No request is sent, and no connection reported, without a connection.
pub proof fn law_no_request_without_connection(f: Fetcher, events: Seq<FetchEvent>)
    requires
        f.wf(),
        expected(f, events),
    ensures
        run(f, events).wf(),
        run(f, events).keepalive == f.keepalive,
    decreases events.len(),
{
    if events.len() > 0 {
        law_no_request_without_connection(f, events.drop_last());
    }
}

/// Each response that was read leads to one report on a request, and nothing
/// else does.
pub proof fn law_each_answer_is_reported(f: Fetcher, events: Seq<FetchEvent>)
    requires
        f.wf(),
        expected(f, events),
    ensures
        reports(f, events) == answers(events),
    decreases events.len(),
{
    if events.len() > 0 {
        law_each_answer_is_reported(f, events.drop_last());
    }
}

/// Without keepalive every request is sent over a connection made for it; with
/// keepalive a connection is made only where there is none.
pub proof fn law_connections_are_kept(f: Fetcher, event: FetchEvent)
    requires
        f.wf(),
        f.expects(event),
    ensures
        !f.keepalive && f.next(event).step == FetchStep::Request ==> f.step
            == FetchStep::ReportConnection,
        f.keepalive && f.next(event).step == FetchStep::Connect ==> !f.next(event).connected,
{
}

/// Where there are no more requests the fetcher ends well, with and without
/// keepalive and whether or not it has a connection.
pub proof fn law_no_more_requests_is_the_end(f: Fetcher)
    requires
        f.step == FetchStep::Receive,
    ensures
        f.next(FetchEvent::Failed).step == FetchStep::Finish,
        f.next(FetchEvent::Failed).connected == f.connected,
{
}

/// A fetcher gives up where no connection comes about or a report is not
/// delivered, and only there. Nothing that a server answers, and no request that
/// fails, makes it give up.
pub proof fn law_gives_up(f: Fetcher, event: FetchEvent)
    requires
        f.expects(event),
    ensures
        f.next(event).step == FetchStep::Fail <==> event == FetchEvent::Failed && (f.step
            == FetchStep::Connect || f.step == FetchStep::ReportConnection || f.step
            is ReportRequest),
        f.next(event).step == FetchStep::Finish <==> event == FetchEvent::Failed && f.step
            == FetchStep::Receive,
{
}

/// Every step of a fetcher that goes on can go well or fail. What a server
/// answers comes of a request alone.
pub proof fn law_outcomes_are_expected(f: Fetcher, event: FetchEvent)
    ensures
        f.expects(event) <==> match f.step {
            FetchStep::Finish => false,
            FetchStep::Fail => false,
            FetchStep::Request => event is Answered || event is Failed,
            _ => event is Done || event is Failed,
        },
{
}

/// A request is taken, sent over a connection that was made for it or was kept,
/// answered and reported. Each step leads to the next one, with and without
/// keepalive.
pub proof fn law_request_is_carried_through(f: Fetcher, status: Status)
    ensures
        f.step == FetchStep::Receive ==> {
            let next = f.next(FetchEvent::Done);
            &&& next.connected == f.connected
            &&& f.keepalive && f.connected ==> next.step == FetchStep::Request
            &&& !f.keepalive || !f.connected ==> next.step == FetchStep::Connect
        },
        f.step == FetchStep::Connect ==> {
            let next = f.next(FetchEvent::Done);
            next.connected && next.step == FetchStep::ReportConnection
        },
        f.step == FetchStep::ReportConnection ==> {
            let next = f.next(FetchEvent::Done);
            next.connected == f.connected && next.step == FetchStep::Request
        },
        f.step == FetchStep::Request ==> {
            let next = f.next(FetchEvent::Answered(status));
            &&& next.connected <==> status == Status::Continue || status == Status::Redirect
            &&& status == Status::Redirect ==> next.step == (FetchStep::ReportRequest {
                finished: false,
            })
            &&& status == Status::Continue || status == Status::CloseConnection ==> next.step == (
            FetchStep::ReportRequest { finished: true })
        },
        f.step == FetchStep::Request ==> {
            let next = f.next(FetchEvent::Failed);
            !next.connected && next.step == FetchStep::Receive
        },
        f.step == (FetchStep::ReportRequest { finished: true }) ==> {
            let next = f.next(FetchEvent::Done);
            next.connected == f.connected && next.step == FetchStep::Receive
        },
        f.step == (FetchStep::ReportRequest { finished: false }) ==> {
            let next = f.next(FetchEvent::Done);
            &&& next.connected == f.connected
            &&& f.keepalive && f.connected ==> next.step == FetchStep::Request
            &&& !f.keepalive || !f.connected ==> next.step == FetchStep::Connect
        },
{
}

/// Whether connections are kept does not change while a fetcher runs.
pub proof fn law_keepalive_is_constant(f: Fetcher, event: FetchEvent)
    ensures
        f.next(event).keepalive == f.keepalive,
{
}

/// The responses with a status from 300 to 400 are followed unless they close
/// the connection; those that close it do so whatever their status; all others
/// are done with.
pub proof fn law_meaning_of_responses(response: ResponseModel)
    ensures
        ({
            let closes = response.headers.contains_key("Connection"@)
                && response.headers["Connection"@] == "close"@;
            let redirects = 300 <= response.status && response.status <= 400;
            &&& response_status(response) == Status::CloseConnection <==> closes
            &&& response_status(response) == Status::Redirect <==> redirects && !closes
            &&& response_status(response) == Status::Continue <==> !redirects && !closes
        }),
{
}

/// The body of a response is discarded unless the request was a `HEAD`,
/// whatever the response says, and the answer's status is the response's.
pub proof fn law_bodies_of_answers(method: RequestMethod, response: ResponseModel)
    ensures
        response_answer(method, response).drop_body <==> method == RequestMethod::Get || method
            == RequestMethod::Post,
        response_answer(method, response).status == response_status(response),
{
}

/// How many reports on connections some events lead to.
pub open spec fn connections(f: Fetcher, events: Seq<FetchEvent>) -> nat
    decreases events.len(),
{
    if events.len() == 0 {
        0
    } else {
        connections(f, events.drop_last()) + if run(f, events).step == FetchStep::ReportConnection {
            1nat
        } else {
            0nat
        }
    }
}

/// Whether an event can cost a fetcher its connection.
pub open spec fn interrupts(event: FetchEvent) -> bool {
    event == FetchEvent::Failed || event == FetchEvent::Answered(Status::CloseConnection)
}

/// How many of some events can cost a fetcher its connection.
pub open spec fn interruptions(events: Seq<FetchEvent>) -> nat
    decreases events.len(),
{
    if events.len() == 0 {
        0
    } else {
        interruptions(events.drop_last()) + if interrupts(events.last()) {
            1nat
        } else {
            0nat
        }
    }
}

/// With keepalive one connection is enough for all requests: another one is
/// made only after a failure or after a response that closes the connection.
pub proof fn law_one_connection_is_enough(f: Fetcher, events: Seq<FetchEvent>)
    requires
        f == (Fetcher { keepalive: true, connected: false, step: FetchStep::Receive }),
        expected(f, events),
    ensures
        connections(f, events) <= 1 + interruptions(events),
{
    lemma_connections(f, events);
}

proof fn lemma_connections(f: Fetcher, events: Seq<FetchEvent>)
    requires
        f == (Fetcher { keepalive: true, connected: false, step: FetchStep::Receive }),
        expected(f, events),
    ensures
        run(f, events).keepalive,
        run(f, events).wf(),
        run(f, events).step == FetchStep::Connect ==> !run(f, events).connected,
        connections(f, events) <= interruptions(events) + if run(f, events).connected {
            1int
        } else {
            0int
        },
    decreases events.len(),
{
    if events.len() > 0 {
        lemma_connections(f, events.drop_last());
    }
}

/// A redirection is reported and then followed, without another request in
/// between, and over the same connection where that is kept.
pub proof fn law_redirection_is_followed(f: Fetcher)
    requires
        f.wf(),
        f.step == FetchStep::Request,
    ensures
        ({
            let reported = f.next(FetchEvent::Answered(Status::Redirect));
            let next = reported.next(FetchEvent::Done);
            &&& reported.step == (FetchStep::ReportRequest { finished: false })
            &&& next.connected
            &&& next.step == if f.keepalive {
                FetchStep::Request
            } else {
                FetchStep::Connect
            }
        }),
{
}

/// After a request that failed, and after a response that closes the
/// connection, the next request gets a new connection.
pub proof fn law_closed_connection_is_not_used_again(f: Fetcher)
    requires
        f.wf(),
        f.step == FetchStep::Request,
    ensures
        ({
            let failed = f.next(FetchEvent::Failed);
            &&& failed.step == FetchStep::Receive
            &&& failed.next(FetchEvent::Done).step == FetchStep::Connect
        }),
        ({
            let closed = f.next(FetchEvent::Answered(Status::CloseConnection)).next(
                FetchEvent::Done,
            );
            &&& closed.step == FetchStep::Receive
            &&& closed.next(FetchEvent::Done).step == FetchStep::Connect
        }),
{
}

} // verus!
