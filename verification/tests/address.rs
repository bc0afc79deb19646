use benchrs::address::{connect, url_to_hostpath, ConnectError, NotAUrl, Target, UrlParts};

fn parts(scheme: &str, host: Option<&str>, port: Option<u16>) -> UrlParts {
    UrlParts {
        scheme: scheme.to_string(),
        host: host.map(|host| host.to_string()),
        port,
        path: "/p".to_string(),
        query: None,
    }
}

fn unknown_scheme(res: Result<Target, ConnectError>) -> String {
    match res {
        Err(ConnectError::UnknownScheme { scheme }) => scheme,
        other => panic!("{:?}", other),
    }
}

#[test]
fn plain_targets() {
    match connect("http://Example.com/a") {
        Ok(Target::Plain { hostport }) => assert_eq!(hostport, "example.com:80"),
        other => panic!("{:?}", other),
    }
    match connect("http://[::1]:8080/") {
        Ok(Target::Plain { hostport }) => assert_eq!(hostport, "[::1]:8080"),
        other => panic!("{:?}", other),
    }
    match connect("http://127.0.0.1:65535") {
        Ok(Target::Plain { hostport }) => assert_eq!(hostport, "127.0.0.1:65535"),
        other => panic!("{:?}", other),
    }
}

#[test]
fn secure_targets() {
    match connect("https://localhost:8001") {
        Ok(Target::Secure { hostport, host }) => {
            assert_eq!(hostport, "localhost:8001");
            assert_eq!(host, "localhost");
        }
        other => panic!("{:?}", other),
    }
    match connect("https://example.com") {
        Ok(Target::Secure { hostport, host: _ }) => assert_eq!(hostport, "example.com:443"),
        other => panic!("{:?}", other),
    }
}

#[test]
fn unix_targets() {
    match connect("unix:///tmp/socket?query") {
        Ok(Target::Unix { path }) => assert_eq!(path, "/tmp/socket"),
        other => panic!("{:?}", other),
    }
}

#[test]
fn unreachable_addresses() {
    assert!(matches!(connect("localhost"), Err(ConnectError::NotAUrl)));
    assert!(matches!(connect(""), Err(ConnectError::NotAUrl)));
    assert_eq!(unknown_scheme(connect("ftp://localhost/")), "ftp");
    assert_eq!(unknown_scheme(connect("Mailto:someone")), "mailto");
    assert_eq!(unknown_scheme(parts("HTTP", Some("h"), Some(1)).target()), "HTTP");
    assert!(matches!(parts("http", None, Some(80)).target(), Err(ConnectError::NoHost)));
    assert!(matches!(parts("https", None, None).target(), Err(ConnectError::NoHost)));
    assert!(matches!(parts("http", Some("h"), None).target(), Err(ConnectError::NoPort)));
    assert!(matches!(parts("https", Some("h"), None).target(), Err(ConnectError::NoPort)));
}

#[test]
fn hostport_of_parts() {
    assert_eq!(parts("x", Some("h"), Some(0)).hostport().unwrap(), "h:0");
    assert_eq!(parts("x", Some("h"), Some(1234)).hostport().unwrap(), "h:1234");
    assert!(matches!(parts("x", None, Some(1)).hostport(), Err(ConnectError::NoHost)));
    assert!(matches!(parts("x", Some("h"), None).hostport(), Err(ConnectError::NoPort)));
}

#[test]
fn host_and_path() {
    let hostpath = |addr| url_to_hostpath(addr).unwrap();
    assert_eq!(hostpath("http://a.example/p?q"), ("a.example".to_string(), "/p?q".to_string()));
    assert_eq!(hostpath("http://a.example"), ("a.example".to_string(), "/".to_string()));
    assert_eq!(hostpath("http://a.example/?"), ("a.example".to_string(), "/?".to_string()));
    assert_eq!(hostpath("http://a.example/p#f"), ("a.example".to_string(), "/p".to_string()));
    assert_eq!(hostpath("unix:///tmp/s"), ("localhost".to_string(), "/tmp/s".to_string()));
    assert_eq!(url_to_hostpath("nothing"), Err(NotAUrl));
}

#[test]
fn host_and_path_of_parts() {
    let mut url = parts("http", None, None);
    assert_eq!(url.hostpath(), ("localhost".to_string(), "/p".to_string()));
    url.host = Some("h".to_string());
    url.query = Some("a=b".to_string());
    assert_eq!(url.hostpath(), ("h".to_string(), "/p?a=b".to_string()));
}
