use benchrs::address::NotAUrl;
use benchrs::producer::{
    caseless_find, produce, GivenFields, ProduceStep, ProducerRequest, RequestConfig,
    RequestMethod, QUEUE_TIMEOUT_SECS,
};

fn config(keepalive: bool) -> RequestConfig {
    RequestConfig { keepalive, useragent: "agent".to_string() }
}

fn request(addr: &str, headers: &[&str]) -> ProducerRequest {
    let headers = headers.iter().map(|header| header.to_string()).collect();
    ProducerRequest::new(addr, RequestMethod::Get, headers, config(false)).unwrap()
}

#[test]
fn test_caseless_find() {
    assert!(caseless_find(&["hOsT: one"], "Host:"));
    assert!(!caseless_find(&["hOsTo: one"], "Host:"));
    assert!(caseless_find(&["User-AGENT: one"], "User-Agent:"));
}

#[test]
fn test_redirect() -> Result<(), NotAUrl> {
    let mut req = ProducerRequest::new(
        "https://www.google.com/",
        RequestMethod::Get,
        vec!["User-Agent: test_redirect".to_string()],
        RequestConfig::default(),
    )?;
    let req_str = req.get_request();
    assert!(
        req_str.contains("Host: www.google.com"),
        "Could not find the appropriate Host header at: {}",
        req_str
    );
    req.redirect("https:///www.yahoo.com")?;
    let req_str = req.get_request();
    assert!(
        req_str.contains("Host: www.yahoo.com"),
        "Could not find the appropriate Host header at: {}",
        req_str
    );

    Ok(())
}

#[test]
fn caseless_find_looks_at_every_text() {
    assert!(!caseless_find::<&str>(&[], "Host:"));
    assert!(caseless_find(&["Accept: x".to_string(), "HOST: y".to_string()], "Host:"));
    assert!(caseless_find(&["anything"], ""));
    assert!(!caseless_find(&["Hos"], "Host:"));
}

#[test]
fn caseless_find_outside_ascii() {
    // The Kelvin sign and the letter k have one lower case form.
    assert!(caseless_find(&["\u{212A}eep: 1"], "keep:"));
    assert!(caseless_find(&["\u{00C9}tat: 1"], "\u{00E9}tat:"));
    assert!(!caseless_find(&["etat: 1"], "\u{00E9}tat:"));
}

#[test]
fn ascii_start_decides() {
    assert!(caseless_find(&["HOST: \u{00E9}"], "Host:"));
    assert!(!caseless_find(&["HOSTS: \u{03A3}"], "Host:"));
    let text = request("http://example.com", &["hosT: \u{0130}"]).get_request();
    assert!(!text.contains("example.com"));
}

#[test]
fn all_requests_are_made() {
    assert_eq!(produce(0, 0, false), ProduceStep::Stop);
    assert_eq!(produce(0, 1, false), ProduceStep::Send);
    assert_eq!(produce(0, 1, true), ProduceStep::Stop);
    let mut sent = 0;
    while produce(sent, 250, false) == ProduceStep::Send {
        sent += 1;
    }
    assert_eq!(sent, 250);
    assert_eq!(QUEUE_TIMEOUT_SECS, 10);
}

#[test]
fn methods_are_named_in_either_case() {
    assert_eq!("get".parse::<RequestMethod>(), Ok(RequestMethod::Get));
    assert_eq!("Post".parse::<RequestMethod>(), Ok(RequestMethod::Post));
    assert_eq!("HEAD".parse::<RequestMethod>(), Ok(RequestMethod::Head));
    assert_eq!("put".parse::<RequestMethod>(), Err("Invalid method"));
    assert_eq!("".parse::<RequestMethod>(), Err("Invalid method"));
    // The long s has the upper case form S.
    assert_eq!("po\u{017F}t".parse::<RequestMethod>(), Ok(RequestMethod::Post));
    assert_eq!(RequestMethod::from_uppercase("get"), Err("Invalid method"));
    assert_eq!(RequestMethod::from_uppercase("GET"), Ok(RequestMethod::Get));
}

#[test]
fn method_name_reads_back() {
    for method in [RequestMethod::Get, RequestMethod::Post, RequestMethod::Head] {
        assert_eq!(method.to_string().parse::<RequestMethod>(), Ok(method));
        assert_eq!(method.to_string().to_lowercase().parse::<RequestMethod>(), Ok(method));
    }
}

#[test]
fn default_config() {
    let config = RequestConfig::default();
    assert!(!config.keepalive);
    assert_eq!(config.useragent, "BenchRs/0.1.10-alpha.0");
    let copy = config.clone();
    assert_eq!(copy.useragent, config.useragent);
    assert_eq!(copy.keepalive, config.keepalive);
}

#[test]
fn request_without_user_headers() {
    assert_eq!(
        request("http://example.com/a?b=c", &[]).get_request(),
        "GET /a?b=c HTTP/1.1\r\nHost: example.com\r\nAccept: */*\r\nConnection: close\r\n\
         User-Agent: agent\r\n\r\n"
    );
}

#[test]
fn user_lines_are_sent() {
    assert_eq!(
        request("http://example.com", &["host: other", "X-A: 1", "ACCEPT: text/html"]).get_request(),
        "GET / HTTP/1.1\r\nConnection: close\r\nUser-Agent: agent\r\n\
         host: other\r\nX-A: 1\r\nACCEPT: text/html\r\n\r\n"
    );
    assert_eq!(
        request("http://example.com", &["connection: x", "user-agent: y"]).get_request(),
        "GET / HTTP/1.1\r\nHost: example.com\r\nAccept: */*\r\nconnection: x\r\nuser-agent: y\r\n\r\n"
    );
}

#[test]
fn keepalive_is_asked_for() {
    let req = ProducerRequest::new(
        "http://example.com:81/",
        RequestMethod::Head,
        vec![],
        config(true),
    )
    .unwrap();
    assert_eq!(
        req.get_request(),
        "HEAD / HTTP/1.1\r\nHost: example.com\r\nAccept: */*\r\nConnection: keep-alive\r\n\
         User-Agent: agent\r\n\r\n"
    );
    assert_eq!(req.method(), RequestMethod::Head);
    assert_eq!(req.addr, "http://example.com:81/");
}

#[test]
fn given_fields_are_left_out() {
    let given = GivenFields {
        host: true,
        accept: true,
        connection: true,
        user_agent: true,
        content_length: true,
    };
    let req = request("http://example.com", &[]);
    assert_eq!(req.get_request_given(&given), "GET / HTTP/1.1\r\n\r\n");
    let given = GivenFields { host: false, ..given };
    assert_eq!(req.get_request_given(&given), "GET / HTTP/1.1\r\nHost: example.com\r\n\r\n");
}

#[test]
fn body_length_is_told() {
    let req = request("http://example.com", &["Accept: x", "Connection: y", "User-Agent: z"]);
    assert_eq!(req.get_message(), req.get_request().as_bytes());
    let req = req.with_body(Some(vec![0, 255, 10, 0, 1, 2, 3, 4, 5, 6, 7, 8]));
    let mut message = b"GET / HTTP/1.1\r\nHost: example.com\r\nContent-Length: 12\r\nAccept: x\r\n\
                        Connection: y\r\nUser-Agent: z\r\n\r\n"
        .to_vec();
    message.extend_from_slice(&[0, 255, 10, 0, 1, 2, 3, 4, 5, 6, 7, 8]);
    assert_eq!(req.get_message(), message);
    let copy = req.clone();
    assert_eq!(copy.get_message(), message);
    assert!(!copy.with_body(None).get_request().contains("Content-Length"));
}

#[test]
fn body_length_of_the_user_is_kept() {
    let req = request("http://example.com", &["content-length: 7"]).with_body(Some(vec![1]));
    assert!(!req.get_request().contains("Content-Length: "));
    assert!(req.get_request().contains("\r\ncontent-length: 7\r\n"));
}

#[test]
fn text_outside_ascii_is_sent_as_utf8() {
    let req = request("http://example.com", &["X: \u{20AC}"]);
    let message = req.get_message();
    assert!(message.windows(3).any(|bytes| bytes == [0xE2, 0x82, 0xAC]));
}

#[test]
fn host_is_named() {
    assert!(request("http://a.example/", &[]).get_request().contains("\r\nHost: a.example\r\n"));
    assert!(request("unix:///tmp/socket", &[]).get_request().contains("\r\nHost: localhost\r\n"));
    assert!(request("http://[::1]:8080/", &[]).get_request().contains("\r\nHost: [::1]\r\n"));
}

#[test]
fn redirect_forgets_the_host_of_the_user() {
    let mut req = request("http://a.example/x", &["Host: mine", "X: 1", "Host:", "hOsT: other"]);
    assert!(!req.get_request().contains("a.example"));
    req.redirect("http://b.example/y").unwrap();
    assert_eq!(req.addr, "http://b.example/y");
    assert_eq!(
        req.get_request(),
        "GET /y HTTP/1.1\r\nHost: b.example\r\nAccept: */*\r\nConnection: close\r\n\
         User-Agent: agent\r\nX: 1\r\n\r\n"
    );
    let mut req = request("http://old.example/", &["host: old.example"]);
    req.redirect("http://new.example/").unwrap();
    assert!(req.get_request().contains("Host: new.example\r\n"));
    assert!(!req.get_request().contains("old.example"));
    let mut req = request("http://a.example/x", &["Host: mine"]);
    req.redirect("http://b.example/y").unwrap();
    assert!(req.get_request().contains("\r\nHost: b.example\r\n"));
}

#[test]
fn last_redirect_counts() {
    let mut twice = request("http://a.example/", &["Host: mine", "X: 1"]);
    let mut once = twice.clone();
    twice.redirect("http://b.example/b").unwrap();
    twice.redirect("http://c.example/c?d").unwrap();
    once.redirect("http://c.example/c?d").unwrap();
    assert_eq!(twice.get_request(), once.get_request());
    assert_eq!(twice.addr, once.addr);
}

#[test]
fn what_is_no_url_is_refused() {
    let refused = ProducerRequest::new("example", RequestMethod::Get, vec![], config(false));
    assert!(matches!(refused, Err(NotAUrl)));
    let mut req = request("http://a.example/", &["Host: mine"]);
    let before = req.get_request();
    assert_eq!(req.redirect("/relative"), Err(NotAUrl));
    assert_eq!(req.get_request(), before);
    assert_eq!(req.addr, "http://a.example/");
}

#[test]
fn requests_at_a_host() {
    let mut req = ProducerRequest::new_at(
        "somewhere",
        "h".to_string(),
        "/p".to_string(),
        RequestMethod::Post,
        vec!["Host: mine".to_string(), "Hos".to_string(), " Host: x".to_string()],
        config(true),
    );
    assert_eq!(
        req.get_request(),
        "POST /p HTTP/1.1\r\nAccept: */*\r\nConnection: keep-alive\r\nUser-Agent: agent\r\n\
         Host: mine\r\nHos\r\n Host: x\r\n\r\n"
    );
    req.redirect_at("elsewhere", "i".to_string(), "/q".to_string());
    assert_eq!(req.addr(), "elsewhere");
    assert_eq!(
        req.get_request(),
        "POST /q HTTP/1.1\r\nHost: i\r\nAccept: */*\r\nConnection: keep-alive\r\n\
         User-Agent: agent\r\nHos\r\n Host: x\r\n\r\n"
    );
}
