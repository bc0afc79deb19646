//! Addresses: what a URL names and how to reach it.

use crate::text::{decimal_text, same_text};
use vstd::prelude::*;

verus! {

/// The parts of a URL.
pub struct UrlModel {
    pub scheme: Seq<char>,
    pub host: Option<Seq<char>>,
    pub port: Option<u16>,
    pub path: Seq<char>,
    pub query: Option<Seq<char>>,
}

/// The parts of a URL. The port is the one that the URL gives or else the one
/// that its scheme is known for.
#[derive(Debug)]
pub struct UrlParts {
    pub scheme: String,
    pub host: Option<String>,
    pub port: Option<u16>,
    pub path: String,
    pub query: Option<String>,
}

/// The text of an optional string.
pub open spec fn optional_text(text: Option<String>) -> Option<Seq<char>> {
    match text {
        Some(text) => Some(text@),
        None => None,
    }
}

impl View for UrlParts {
    type V = UrlModel;

    open spec fn view(&self) -> UrlModel {
        UrlModel {
            scheme: self.scheme@,
            host: optional_text(self.host),
            port: self.port,
            path: self.path@,
            query: optional_text(self.query),
        }
    }
}

/// Why a text is not a URL.
#[verifier::external_type_specification]
#[verifier::external_body]
pub struct ExUrlError(url::ParseError);

/// The parts of the URL that `url::Url::parse` makes of a text, `None` where it
/// refuses the text.
pub uninterp spec fn parsed_url(addr: Seq<char>) -> Option<UrlModel>;

/// `url::Url::parse`, and the parts of the URL as its methods `scheme`, `host`,
/// `port_or_known_default`, `path` and `query` give them. The outcome is named
/// by `parsed_url`.
#[verifier::external_body]
pub(crate) fn parse_url(addr: &str) -> (res: Result<UrlParts, url::ParseError>)
    ensures
        match res {
            Ok(parts) => parsed_url(addr@) == Some(parts@),
            Err(_) => parsed_url(addr@) == None::<UrlModel>,
        },
{
    let url = url::Url::parse(addr)?;
    Ok(UrlParts {
        scheme: url.scheme().to_string(),
        host: url.host().map(|host| host.to_string()),
        port: url.port_or_known_default(),
        path: url.path().to_string(),
        query: url.query().map(|query| query.to_string()),
    })
}

/// The host that a URL without one stands for.
pub const LOCALHOST: &'static str = "localhost";

impl UrlModel {
    /// The host to ask, and what to ask it for.
    pub open spec fn hostpath(self) -> (Seq<char>, Seq<char>) {
        (
            match self.host {
                Some(host) => host,
                None => LOCALHOST@,
            },
            match self.query {
                Some(query) => self.path + "?"@ + query,
                None => self.path,
            },
        )
    }
}

impl UrlParts {
    /// The host to ask, and what to ask it for.
    pub fn hostpath(&self) -> (res: (String, String))
        ensures
            (res.0@, res.1@) == self@.hostpath(),
            res.0@ == match self.host {
                Some(host) => host@,
                None => "localhost"@,
            },
            res.1@ == match self.query {
                Some(query) => self.path@ + "?"@ + query@,
                None => self.path@,
            },
    {
        let host = match &self.host {
            Some(host) => host.clone(),
            None => LOCALHOST.to_owned(),
        };
        let mut path = self.path.clone();
        if let Some(query) = &self.query {
            path.append("?");
            path.append(query.as_str());
        }
        (host, path)
    }
}

/// A text is not a URL.
#[derive(Debug, Clone, Copy, PartialEq, Eq, Structural)]
pub struct NotAUrl;

/// The host that `addr` names, and what to ask it for.
pub fn url_to_hostpath(addr: &str) -> (res: Result<(String, String), NotAUrl>)
    ensures
        match res {
            Ok((host, path)) => parsed_url(addr@) is Some && (host@, path@) == parsed_url(
                addr@,
            ).unwrap().hostpath(),
            Err(_) => parsed_url(addr@) is None,
        },
{
    match parse_url(addr) {
        Ok(parts) => Ok(parts.hostpath()),
        Err(_) => Err(NotAUrl),
    }
}

/// How to reach an address.
pub enum TargetModel {
    Plain { hostport: Seq<char> },
    Secure { hostport: Seq<char>, host: Seq<char> },
    Unix { path: Seq<char> },
}

/// How to reach an address.
#[derive(Debug)]
pub enum Target {
    /// Over TCP.
    Plain { hostport: String },
    /// Over TLS, where the peer must prove to be `host`.
    Secure { hostport: String, host: String },
    /// Over a Unix socket.
    Unix { path: String },
}

impl View for Target {
    type V = TargetModel;

    open spec fn view(&self) -> TargetModel {
        match *self {
            Target::Plain { hostport } => TargetModel::Plain { hostport: hostport@ },
            Target::Secure { hostport, host } => TargetModel::Secure {
                hostport: hostport@,
                host: host@,
            },
            Target::Unix { path } => TargetModel::Unix { path: path@ },
        }
    }
}

/// Why an address cannot be reached.
pub enum ConnectFault {
    NotAUrl,
    NoHost,
    NoPort,
    UnknownScheme { scheme: Seq<char> },
}

/// Why an address cannot be reached.
#[derive(Debug)]
pub enum ConnectError {
    /// It is not a URL.
    NotAUrl,
    /// It has no host.
    NoHost,
    /// It has no port.
    NoPort,
    /// Nothing is known about its scheme.
    UnknownScheme { scheme: String },
}

impl View for ConnectError {
    type V = ConnectFault;

    open spec fn view(&self) -> ConnectFault {
        match *self {
            ConnectError::NotAUrl => ConnectFault::NotAUrl,
            ConnectError::NoHost => ConnectFault::NoHost,
            ConnectError::NoPort => ConnectFault::NoPort,
            ConnectError::UnknownScheme { scheme } => ConnectFault::UnknownScheme {
                scheme: scheme@,
            },
        }
    }
}

impl UrlModel {
    /// The host and the port, with a colon between them.
    pub open spec fn hostport(self) -> Result<Seq<char>, ConnectFault> {
        match (self.host, self.port) {
            (None, _) => Err(ConnectFault::NoHost),
            (Some(_), None) => Err(ConnectFault::NoPort),
            (Some(host), Some(port)) => Ok(host + ":"@ + crate::text::decimal(port as nat)),
        }
    }

    /// How to reach what the URL names.
    pub open spec fn target(self) -> Result<TargetModel, ConnectFault> {
        if self.scheme == "http"@ {
            match self.hostport() {
                Ok(hostport) => Ok(TargetModel::Plain { hostport }),
                Err(error) => Err(error),
            }
        } else if self.scheme == "https"@ {
            match self.hostport() {
                Ok(hostport) => Ok(TargetModel::Secure { hostport, host: self.host.unwrap() }),
                Err(error) => Err(error),
            }
        } else if self.scheme == "unix"@ {
            Ok(TargetModel::Unix { path: self.path })
        } else {
            Err(ConnectFault::UnknownScheme { scheme: self.scheme })
        }
    }
}

/// Whether `res` is the outcome `model`.
pub open spec fn is_target(
    res: Result<Target, ConnectError>,
    model: Result<TargetModel, ConnectFault>,
) -> bool {
    match res {
        Ok(target) => model == Ok::<TargetModel, ConnectFault>(target@),
        Err(error) => model == Err::<TargetModel, ConnectFault>(error@),
    }
}

impl UrlParts {
    /// The host and the port, with a colon between them.
    pub fn hostport(&self) -> (res: Result<String, ConnectError>)
        ensures
            match res {
                Ok(hostport) => self@.hostport() == Ok::<Seq<char>, ConnectFault>(hostport@),
                Err(error) => self@.hostport() == Err::<Seq<char>, ConnectFault>(error@),
            },
    {
        match &self.host {
            None => Err(ConnectError::NoHost),
            Some(host) => match self.port {
                None => Err(ConnectError::NoPort),
                Some(port) => {
                    let mut hostport = host.clone();
                    hostport.append(":");
                    hostport.append(decimal_text(port as usize).as_str());
                    Ok(hostport)
                },
            },
        }
    }

    /// How to reach what the URL names.
    pub fn target(&self) -> (res: Result<Target, ConnectError>)
        ensures
            is_target(res, self@.target()),
            match res {
                Ok(Target::Plain { hostport }) => {
                    &&& self.scheme@ == "http"@
                    &&& self.host matches Some(host) && self.port matches Some(port) && hostport@
                        == host@ + ":"@ + crate::text::decimal(port as nat)
                },
                Ok(Target::Secure { hostport, host: name }) => {
                    &&& self.scheme@ == "https"@
                    &&& self.host matches Some(host) && self.port matches Some(port) && hostport@
                        == host@ + ":"@ + crate::text::decimal(port as nat) && name@ == host@
                },
                Ok(Target::Unix { path }) => self.scheme@ == "unix"@ && path@ == self.path@,
                Err(ConnectError::NotAUrl) => false,
                Err(ConnectError::NoHost) => (self.scheme@ == "http"@ || self.scheme@ == "https"@)
                    && self.host is None,
                Err(ConnectError::NoPort) => (self.scheme@ == "http"@ || self.scheme@ == "https"@)
                    && self.host is Some && self.port is None,
                Err(ConnectError::UnknownScheme { scheme }) => scheme@ == self.scheme@ && self.scheme@
                    != "http"@ && self.scheme@ != "https"@ && self.scheme@ != "unix"@,
            },
    {
        if same_text(self.scheme.as_str(), "http") {
            match self.hostport() {
                Ok(hostport) => Ok(Target::Plain { hostport }),
                Err(error) => Err(error),
            }
        } else if same_text(self.scheme.as_str(), "https") {
            match (self.hostport(), &self.host) {
                (Ok(hostport), Some(host)) => Ok(Target::Secure { hostport, host: host.clone() }),
                (Ok(_), None) => Err(ConnectError::NoHost),
                (Err(error), _) => Err(error),
            }
        } else if same_text(self.scheme.as_str(), "unix") {
            Ok(Target::Unix { path: self.path.clone() })
        } else {
            Err(ConnectError::UnknownScheme { scheme: self.scheme.clone() })
        }
    }
}

/// How to reach `addr`.
pub fn connect(addr: &str) -> (res: Result<Target, ConnectError>)
    ensures
        is_target(
            res,
            match parsed_url(addr@) {
                Some(url) => url.target(),
                None => Err(ConnectFault::NotAUrl),
            },
        ),
        parsed_url(addr@) is None <==> res matches Err(ConnectError::NotAUrl),
{
    match parse_url(addr) {
        Ok(parts) => parts.target(),
        Err(_) => Err(ConnectError::NotAUrl),
    }
}

/// The host that is asked is the URL's, or this machine where it has none. It is
/// asked for the URL's path and, where there is a query, a question mark and the
/// query behind it.
pub proof fn law_host_and_path_of_a_url(url: UrlModel)
    ensures
        url.host matches Some(host) ==> url.hostpath().0 == host,
        url.host is None ==> url.hostpath().0 == "localhost"@,
        url.query is None ==> url.hostpath().1 == url.path,
        url.query matches Some(query) ==> {
            let asked = url.hostpath().1;
            &&& asked.len() == url.path.len() + 1 + query.len()
            &&& asked.take(url.path.len() as int) == url.path
            &&& asked[url.path.len() as int] == '?'
            &&& asked.skip(url.path.len() as int + 1) == query
        },
{
    reveal_strlit("?");
    if let Some(query) = url.query {
        let asked = url.hostpath().1;
        assert(asked.take(url.path.len() as int) =~= url.path);
        assert(asked.skip(url.path.len() as int + 1) =~= query);
    }
}

/// A host and a port are written with a colon between them, and the port reads
/// back. A missing host is found before a missing port.
pub proof fn law_host_and_port_of_a_url(url: UrlModel)
    ensures
        url.host is None ==> url.hostport() == Err::<Seq<char>, ConnectFault>(ConnectFault::NoHost),
        url.host is Some && url.port is None ==> url.hostport() == Err::<Seq<char>, ConnectFault>(
            ConnectFault::NoPort,
        ),
        url.host matches Some(host) ==> (url.port matches Some(port) ==> (url.hostport()
            matches Ok(hostport) && hostport.len() > host.len() && hostport.take(host.len() as int)
            == host && hostport[host.len() as int] == ':' && crate::text::number_value(
            hostport.skip(host.len() as int + 1),
            10,
        ) == Some(port as nat))),
{
    reveal_strlit(":");
    if url.host is Some && url.port is Some {
        let host = url.host.unwrap();
        let digits = crate::text::decimal(url.port.unwrap() as nat);
        let hostport = host + ":"@ + digits;
        crate::text::law_decimal_reads_back(url.port.unwrap() as nat);
        assert(hostport.take(host.len() as int) =~= host);
        assert(hostport.skip(host.len() as int + 1) =~= digits);
    }
}

/// The scheme alone decides how an address is reached: `http` over TCP, `https`
/// over TLS with the URL's host, `unix` over the socket at the URL's path. Any
/// other scheme is refused and named.
pub proof fn law_scheme_decides(url: UrlModel)
    ensures
        url.scheme == "http"@ ==> url.target() == match url.hostport() {
            Ok(hostport) => Ok(TargetModel::Plain { hostport }),
            Err(fault) => Err(fault),
        },
        url.scheme == "https"@ ==> url.target() == match url.hostport() {
            Ok(hostport) => Ok(TargetModel::Secure { hostport, host: url.host.unwrap() }),
            Err(fault) => Err(fault),
        },
        url.scheme == "unix"@ ==> url.target() == Ok::<TargetModel, ConnectFault>(
            TargetModel::Unix { path: url.path },
        ),
        url.scheme != "http"@ && url.scheme != "https"@ && url.scheme != "unix"@ ==> url.target()
            == Err::<TargetModel, ConnectFault>(
            ConnectFault::UnknownScheme { scheme: url.scheme },
        ),
{
    reveal_strlit("http");
    reveal_strlit("https");
    reveal_strlit("unix");
    assert("http"@.len() == 4 && "https"@.len() == 5 && "unix"@.len() == 4);
    assert("http"@[0] != "unix"@[0]);
}

/// A URL is modelled by the texts of its parts.
pub proof fn law_url_is_its_parts(url: UrlParts)
    ensures
        url@.scheme == url.scheme@,
        url@.port == url.port,
        url@.path == url.path@,
        url@.host == match url.host {
            Some(host) => Some(host@),
            None => None,
        },
        url@.query == match url.query {
            Some(query) => Some(query@),
            None => None,
        },
{
}

} // verus!
