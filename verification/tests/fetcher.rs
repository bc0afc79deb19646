use benchrs::address::NotAUrl;
use benchrs::fetcher::Attempt::{Connected, NotConnected, NotWritable};
use benchrs::fetcher::FetchEvent::{Answered, Done, Failed};
use benchrs::fetcher::{
    answer, do_request, open_connection, status_of, Answer, Attempt, FetchEvent, FetchStep, Fetcher,
    OpenStep, Status, CONNECT_TIMEOUT_MILLIS,
};
use benchrs::producer::{ProducerRequest, RequestConfig, RequestMethod};
use benchrs::response::{Headers, Response};

fn response(status: u16, fields: &[(&str, &str)]) -> Response {
    let mut headers = Headers::new();
    for (name, value) in fields {
        headers.insert(name.to_string(), value.to_string());
    }
    Response { status, headers }
}

fn request(method: RequestMethod) -> ProducerRequest {
    ProducerRequest::new("http://a.example/", method, vec![], RequestConfig::default()).unwrap()
}

fn open(outcomes: &[Attempt]) -> OpenStep {
    let mut last = None;
    loop {
        match open_connection(outcomes.len(), last) {
            OpenStep::Try(index) => last = Some((index, outcomes[index])),
            step => return step,
        }
    }
}

#[test]
fn first_address_that_answers_is_used() {
    assert_eq!(open(&[]), OpenStep::Fail);
    assert_eq!(open(&[Connected]), OpenStep::Use(0));
    assert_eq!(open(&[NotConnected, NotWritable, Connected, Connected]), OpenStep::Use(2));
    assert_eq!(open(&[NotConnected, NotWritable]), OpenStep::Fail);
    assert_eq!(open_connection(2, None), OpenStep::Try(0));
    assert_eq!(open_connection(2, Some((0, NotConnected))), OpenStep::Try(1));
    assert_eq!(CONNECT_TIMEOUT_MILLIS, 100);
}

#[test]
fn header_fields() {
    let mut headers = Headers::new();
    assert_eq!(headers.get("A"), None);
    headers.insert("A".to_string(), "1".to_string());
    headers.insert("B".to_string(), "2".to_string());
    headers.insert("A".to_string(), "3".to_string());
    assert_eq!(headers.get("A"), Some("3"));
    assert_eq!(headers.get("B"), Some("2"));
    assert_eq!(headers.get("a"), None);
}

#[test]
fn redirections() {
    for (status, expected) in [(200, false), (299, false), (300, true), (302, true), (400, true), (401, false)] {
        assert_eq!(response(status, &[]).is_redirect(), expected);
    }
}

#[test]
fn status_of_responses() {
    assert_eq!(status_of(&response(200, &[])), Status::Continue);
    assert_eq!(status_of(&response(404, &[("Connection", "keep-alive")])), Status::Continue);
    assert_eq!(status_of(&response(200, &[("Connection", "close")])), Status::CloseConnection);
    assert_eq!(status_of(&response(200, &[("Connection", "Close")])), Status::Continue);
    assert_eq!(status_of(&response(200, &[("connection", "close")])), Status::Continue);
    assert_eq!(status_of(&response(301, &[])), Status::Redirect);
    assert_eq!(status_of(&response(301, &[("Connection", "close")])), Status::CloseConnection);
}

#[test]
fn answers_to_requests() {
    let mut get = request(RequestMethod::Get);
    assert_eq!(
        do_request(&mut get, &response(200, &[])),
        Ok(Answer { status: Status::Continue, drop_body: true })
    );
    assert_eq!(get.addr, "http://a.example/");
    let mut head = request(RequestMethod::Head);
    assert_eq!(
        do_request(&mut head, &response(200, &[("Connection", "close")])),
        Ok(Answer { status: Status::CloseConnection, drop_body: false })
    );
    let mut post = request(RequestMethod::Post);
    assert_eq!(
        do_request(&mut post, &response(302, &[("Location", "http://b.example/b")])),
        Ok(Answer { status: Status::Redirect, drop_body: true })
    );
    assert_eq!(post.addr, "http://b.example/b");
    assert!(post.get_request().starts_with("POST /b HTTP/1.1\r\nHost: b.example\r\n"));
}

#[test]
fn answers_to_methods() {
    let closing = response(200, &[("Connection", "close")]);
    for (method, drop_body) in
        [(RequestMethod::Get, true), (RequestMethod::Post, true), (RequestMethod::Head, false)]
    {
        assert_eq!(
            answer(method, &closing),
            Answer { status: Status::CloseConnection, drop_body }
        );
    }
}

#[test]
fn redirection_to_no_url() {
    let mut get = request(RequestMethod::Get);
    assert_eq!(do_request(&mut get, &response(302, &[("Location", "/b")])), Err(NotAUrl));
    assert_eq!(get.addr, "http://a.example/");
}

#[test]
fn closing_comes_before_redirecting() {
    let mut get = request(RequestMethod::Get);
    let fields = [("Location", "http://b.example/"), ("Connection", "close")];
    assert_eq!(
        do_request(&mut get, &response(302, &fields)),
        Ok(Answer { status: Status::CloseConnection, drop_body: true })
    );
    assert_eq!(get.addr, "http://b.example/");
}

fn steps(keepalive: bool, events: &[FetchEvent]) -> Vec<FetchStep> {
    let mut fetcher = Fetcher::new(keepalive);
    assert_eq!(fetcher.step, FetchStep::Receive);
    events.iter().map(|event| fetcher.fetch(*event)).collect()
}

#[test]
fn connections_are_kept() {
    let report = FetchStep::ReportRequest { finished: true };
    assert_eq!(
        steps(true, &[Done, Done, Done, Answered(Status::Continue), Done, Done, Answered(Status::Continue), Done, Failed]),
        [
            FetchStep::Connect,
            FetchStep::ReportConnection,
            FetchStep::Request,
            report,
            FetchStep::Receive,
            FetchStep::Request,
            report,
            FetchStep::Receive,
            FetchStep::Finish,
        ]
    );
    assert_eq!(
        steps(false, &[Done, Done, Done, Answered(Status::Continue), Done, Done, Done, Done]),
        [
            FetchStep::Connect,
            FetchStep::ReportConnection,
            FetchStep::Request,
            report,
            FetchStep::Receive,
            FetchStep::Connect,
            FetchStep::ReportConnection,
            FetchStep::Request,
        ]
    );
}

#[test]
fn redirection_is_followed() {
    let events = [Done, Done, Done, Answered(Status::Redirect), Done];
    let report = FetchStep::ReportRequest { finished: false };
    assert_eq!(steps(true, &events)[3..], [report, FetchStep::Request]);
    assert_eq!(steps(false, &events)[3..], [report, FetchStep::Connect]);
}

#[test]
fn closed_connection_is_not_used_again() {
    let closed = [Done, Done, Done, Answered(Status::CloseConnection), Done, Done];
    assert_eq!(steps(true, &closed)[4..], [FetchStep::Receive, FetchStep::Connect]);
    let failed = [Done, Done, Done, Failed, Done];
    assert_eq!(steps(true, &failed)[3..], [FetchStep::Receive, FetchStep::Connect]);
}

#[test]
fn fetcher_gives_up() {
    assert_eq!(steps(true, &[Failed]), [FetchStep::Finish]);
    assert_eq!(steps(true, &[Done, Failed])[1], FetchStep::Fail);
    assert_eq!(steps(true, &[Done, Done, Failed])[2], FetchStep::Fail);
    assert_eq!(steps(true, &[Done, Done, Done, Answered(Status::Continue), Failed])[4], FetchStep::Fail);
}

#[test]
fn each_answer_is_reported() {
    let steps = steps(
        true,
        &[Done, Done, Done, Answered(Status::Redirect), Done, Answered(Status::Continue), Done, Done, Failed, Done, Done, Done],
    );
    let reports = steps.iter().filter(|step| matches!(step, FetchStep::ReportRequest { .. }));
    assert_eq!(reports.count(), 2);
    assert_eq!(steps[11], FetchStep::Request);
}

#[test]
fn one_connection_is_enough() {
    let mut events = vec![Done, Done];
    for _ in 0..3 {
        events.extend_from_slice(&[Done, Answered(Status::Continue), Done]);
    }
    let connections = |keepalive, events: &[FetchEvent]| {
        steps(keepalive, events)
            .into_iter()
            .filter(|step| *step == FetchStep::ReportConnection)
            .count()
    };
    assert_eq!(connections(true, &events), 1);
    events.extend_from_slice(&[Done, Answered(Status::CloseConnection), Done, Done, Done, Done]);
    assert_eq!(connections(true, &events), 2);
}
