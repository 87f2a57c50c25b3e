//! The connection configuration's data shapes and the decisions its
//! loader takes.  Reading the file and opening connections are an
//! external collaborator's work; the classification of server entries
//! and the wording of configuration errors are verified here.

use vstd::prelude::*;
use crate::text::{str_chars, chars_eq};

verus! {

/// An HTTP server entry.
#[derive(Debug)]
pub struct Http {
    pub address: String,
}

/// An HTTP push target.
#[derive(Debug)]
pub struct HttpReverse {
    url: String,
    secret: String,
}

impl HttpReverse {
    pub closed spec fn spec_url(&self) -> Seq<char> {
        self.url@
    }

    pub closed spec fn spec_secret(&self) -> Seq<char> {
        self.secret@
    }

    pub fn new(url: String, secret: String) -> (r: HttpReverse)
        ensures
            r.spec_url() == url@,
            r.spec_secret() == secret@,
    {
        HttpReverse { url, secret }
    }
}

/// A lambda server entry.
#[derive(Debug)]
pub struct Lambda {
    type_: String,
}

impl Lambda {
    pub closed spec fn spec_type(&self) -> Seq<char> {
        self.type_@
    }

    pub fn new(type_: String) -> (r: Lambda)
        ensures
            r.spec_type() == type_@,
    {
        Lambda { type_ }
    }
}

/// A websocket server entry.
#[derive(Debug)]
pub struct Ws {
    address: String,
}

impl Ws {
    pub closed spec fn spec_address(&self) -> Seq<char> {
        self.address@
    }

    pub fn new(address: String) -> (r: Ws)
        ensures
            r.spec_address() == address@,
    {
        Ws { address }
    }

    /// The address to connect to.
    pub fn address(&self) -> (r: &str)
        ensures
            r@ == self.spec_address(),
    {
        self.address.as_str()
    }
}

/// A reverse-websocket entry.
#[derive(Debug)]
pub struct WsReverse {
    universal: String,
    api: String,
    event: String,
}

impl WsReverse {
    pub closed spec fn spec_universal(&self) -> Seq<char> {
        self.universal@
    }

    pub closed spec fn spec_api(&self) -> Seq<char> {
        self.api@
    }

    pub closed spec fn spec_event(&self) -> Seq<char> {
        self.event@
    }

    pub fn new(universal: String, api: String, event: String) -> (r: WsReverse)
        ensures
            r.spec_universal() == universal@,
            r.spec_api() == api@,
            r.spec_event() == event@,
    {
        WsReverse { universal, api, event }
    }
}

/// The kinds of server entry a configuration may name.
#[derive(Debug, PartialEq, Eq, Structural)]
pub enum ServerKind {
    Http,
    Lambda,
    Ws,
    WsReverse,
    Other,
}

pub open spec fn server_kind_of(s: Seq<char>) -> ServerKind {
    if s == "http"@ {
        ServerKind::Http
    } else if s == "lambda"@ {
        ServerKind::Lambda
    } else if s == "ws"@ {
        ServerKind::Ws
    } else if s == "ws-reverse"@ {
        ServerKind::WsReverse
    } else {
        ServerKind::Other
    }
}

/// Which kind of server a configuration key names; anything else is
/// ignored by the loader.
pub fn classify_server(name: &str) -> (r: ServerKind)
    ensures
        r == server_kind_of(name@),
{
    let v = str_chars(name);
    if chars_eq(&v, &str_chars("http")) {
        ServerKind::Http
    } else if chars_eq(&v, &str_chars("lambda")) {
        ServerKind::Lambda
    } else if chars_eq(&v, &str_chars("ws")) {
        ServerKind::Ws
    } else if chars_eq(&v, &str_chars("ws-reverse")) {
        ServerKind::WsReverse
    } else {
        ServerKind::Other
    }
}

/// The configuration guide a reader is pointed to.
pub open spec fn config_guide_hint() -> Seq<char> {
    "\u{ff0c}\u{8bf7}\u{53c2}\u{8003}https://docs.go-cqhttp.org/guide/config.html#%E9%85%8D%E7%BD%AE%E4%BF%A1%E6%81%AF"@
}

/// The full text of a configuration error: the complaint, then the
/// pointer to the configuration guide.
pub fn gen_error(msg: &str) -> (r: String)
    ensures
        r@ == msg@ + config_guide_hint(),
{
    let mut s = msg.to_owned();
    s.append(
        "\u{ff0c}\u{8bf7}\u{53c2}\u{8003}https://docs.go-cqhttp.org/guide/config.html#%E9%85%8D%E7%BD%AE%E4%BF%A1%E6%81%AF",
    );
    s
}

} // verus!
