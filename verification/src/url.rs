//! The destination URL parser: splits `scheme://host[:port][/path]` strings
//! into a structured destination, with the scheme's default port applied when
//! none is written.

use vstd::prelude::*;

use crate::num::{
    dec_digits, is_digit, lemma_dec_digits_value, parse_u16, spec_parse_u16, u64_to_dec_string,
};
use crate::text::{
    find_char_from, find_from, find_scheme_sep, find_scheme_sep_from, lemma_find_from_target,
    lemma_find_scheme_sep_target, lemma_rfind_below_none, lemma_rfind_below_some, rfind_below,
    rfind_char_below, str_eq,
};

verus! {

/// The mathematical shape of a parsed destination.
pub ghost struct UrlModel {
    pub protocol: Seq<char>,
    pub hostname: Seq<char>,
    pub port: u16,
    pub path: Option<Seq<char>>,
}

/// A parsed destination: where a proxied request is forwarded to.
#[derive(Debug, Clone)]
pub struct URL {
    pub protocol: String,
    pub hostname: String,
    pub path: Option<String>,
    pub port: u16,
}

impl View for URL {
    type V = UrlModel;

    open spec fn view(&self) -> UrlModel {
        UrlModel {
            protocol: self.protocol@,
            hostname: self.hostname@,
            port: self.port,
            path: match self.path {
                Some(p) => Some(p@),
                None => None,
            },
        }
    }
}

pub open spec fn msg_missing_protocol(s: Seq<char>) -> Seq<char> {
    "Missing protocol in URL: "@ + s
}

pub open spec fn msg_unsupported_protocol(protocol: Seq<char>) -> Seq<char> {
    "Unsupported protocol: "@ + protocol
}

pub open spec fn msg_invalid_port(port_str: Seq<char>, s: Seq<char>) -> Seq<char> {
    "Invalid port '"@ + port_str + "' in URL: "@ + s
}

pub open spec fn msg_empty_hostname(s: Seq<char>) -> Seq<char> {
    "Empty hostname in URL: "@ + s
}

/// How a destination string is read.  The first `"://"` separates the scheme;
/// the first `/` after it separates the path; the last `:` of the remaining
/// segment separates an explicit port.  A failure carries the message shown
/// to the client.
pub open spec fn spec_parse_url(s: Seq<char>) -> Result<UrlModel, Seq<char>> {
    let sep = find_scheme_sep_from(s, 0);
    if sep < 0 {
        Err(msg_missing_protocol(s))
    } else {
        let protocol = s.subrange(0, sep);
        let rest = s.subrange(sep + 3, s.len() as int);
        if protocol != "http"@ && protocol != "https"@ {
            Err(msg_unsupported_protocol(protocol))
        } else {
            let default_port: u16 = if protocol == "https"@ {
                443
            } else {
                80
            };
            let slash = find_from(rest, 0, '/');
            let host_port = rest.subrange(0, slash);
            let path = if slash < rest.len() {
                Some(rest.subrange(slash, rest.len() as int))
            } else {
                None
            };
            let colon = rfind_below(host_port, host_port.len() as int, ':');
            if colon >= 0 {
                let hostname = host_port.subrange(0, colon);
                let port_str = host_port.subrange(colon + 1, host_port.len() as int);
                match spec_parse_u16(port_str) {
                    None => Err(msg_invalid_port(port_str, s)),
                    Some(port) => if hostname.len() == 0 {
                        Err(msg_empty_hostname(s))
                    } else {
                        Ok(UrlModel { protocol, hostname, port, path })
                    },
                }
            } else {
                if host_port.len() == 0 {
                    Err(msg_empty_hostname(s))
                } else {
                    Ok(UrlModel { protocol, hostname: host_port, port: default_port, path })
                }
            }
        }
    }
}

/// The string a destination prints as.
pub open spec fn spec_url_string(m: UrlModel) -> Seq<char> {
    m.protocol + "://"@ + m.hostname + ":"@ + dec_digits(m.port as nat) + (match m.path {
        Some(p) => "!"@ + p,
        None => Seq::<char>::empty(),
    })
}

impl URL {
    /// Parses a destination string, or reports why it cannot be one.
    pub fn new(string: &str) -> (r: Result<Self, String>)
        ensures
            match spec_parse_url(string@) {
                Ok(m) => r is Ok && r->Ok_0@ == m,
                Err(msg) => r is Err && r->Err_0@ == msg,
            },
    {
        let n: usize = string.unicode_len();
        let sep: usize = match find_scheme_sep(string) {
            Some(k) => k,
            None => {
                return Err(String::from_str("Missing protocol in URL: ").concat(string));
            },
        };
        let protocol: &str = string.substring_char(0, sep);
        let rest: &str = string.substring_char(sep + 3, n);
        let is_http = str_eq(protocol, "http");
        let is_https = str_eq(protocol, "https");
        if !is_http && !is_https {
            return Err(String::from_str("Unsupported protocol: ").concat(protocol));
        }
        let default_port: u16 = if is_https {
            443
        } else {
            80
        };
        let rest_len: usize = rest.unicode_len();
        let slash: usize = find_char_from(rest, 0, '/');
        let host_port: &str = rest.substring_char(0, slash);
        let path: Option<String> = if slash < rest_len {
            Some(String::from_str(rest.substring_char(slash, rest_len)))
        } else {
            None
        };
        let hp_len: usize = host_port.unicode_len();
        let (hostname, port): (&str, u16) = match rfind_char_below(host_port, hp_len, ':') {
            Some(colon) => {
                let port_str: &str = host_port.substring_char(colon + 1, hp_len);
                match parse_u16(port_str) {
                    Some(p) => (host_port.substring_char(0, colon), p),
                    None => {
                        return Err(
                            String::from_str("Invalid port '").concat(port_str).concat(
                                "' in URL: ",
                            ).concat(string),
                        );
                    },
                }
            },
            None => (host_port, default_port),
        };
        if hostname.unicode_len() == 0 {
            return Err(String::from_str("Empty hostname in URL: ").concat(string));
        }
        Ok(
            URL {
                protocol: String::from_str(protocol),
                hostname: String::from_str(hostname),
                port,
                path,
            },
        )
    }

    /// Prints the destination as `scheme://host:port` with any path appended
    /// after a `!` marker.
    pub fn to_string(self) -> (r: String)
        ensures
            r@ == spec_url_string(self@),
    {
        let r = self.protocol.concat("://").concat(self.hostname.as_str()).concat(":").concat(
            u64_to_dec_string(self.port as u64).as_str(),
        );
        match self.path {
            Some(p) => r.concat("!").concat(p.as_str()),
            None => r,
        }
    }
}

impl core::str::FromStr for URL {
    type Err = String;

    fn from_str(s: &str) -> Result<Self, String> {
        Self::new(s)
    }
}

/// A well-formed destination string parses back to exactly the parts it was
/// built from: the scheme, the host, the port written after the last `:` (or
/// the scheme's default when none is written), and the path beginning at the
/// first `/` after the host (absent when there is none).
pub proof fn lemma_url_round_trip(
    protocol: Seq<char>,
    host: Seq<char>,
    port: Option<u16>,
    path: Seq<char>,
)
    requires
        protocol == "http"@ || protocol == "https"@,
        host.len() > 0,
        forall|i: int| 0 <= i < host.len() ==> host[i] != ':' && host[i] != '/',
        path.len() == 0 || path[0] == '/',
    ensures
        spec_parse_url(
            protocol + "://"@ + host + (match port {
                Some(p) => ":"@ + dec_digits(p as nat),
                None => Seq::<char>::empty(),
            }) + path,
        ) == Ok::<UrlModel, Seq<char>>(
            UrlModel {
                protocol: protocol,
                hostname: host,
                port: match port {
                    Some(p) => p,
                    None => if protocol == "https"@ {
                        443
                    } else {
                        80
                    },
                },
                path: if path.len() == 0 {
                    None
                } else {
                    Some(path)
                },
            },
        ),
{
    reveal_strlit("http");
    reveal_strlit("https");
    reveal_strlit("://");
    let port_part = match port {
        Some(p) => ":"@ + dec_digits(p as nat),
        None => Seq::<char>::empty(),
    };
    let s = protocol + "://"@ + host + port_part + path;
    let plen = protocol.len() as int;
    reveal_strlit(":");
    assert(("://"@).len() == 3);
    assert((":"@).len() == 1);
    if port is Some {
        lemma_dec_digits_value(port->0 as nat);
    }

    // Every character of the scheme, of the host, and of the digits is known.
    assert(s[plen] == ':' && s[plen + 1] == '/' && s[plen + 2] == '/');
    assert(forall|j: int| 0 <= j < plen ==> s[j] == protocol[j]);
    assert(forall|j: int| 0 <= j < plen ==> s[j] != ':');
    lemma_find_scheme_sep_target(s, 0, plen);
    assert(s.subrange(0, plen) =~= protocol);

    let rest = s.subrange(plen + 3, s.len() as int);
    assert(rest =~= host + port_part + path);
    let hp = host.len() as int;
    let pp = port_part.len() as int;

    assert(forall|j: int|
        0 <= j < pp ==> port_part[j] == #[trigger] rest[hp + j]);
    if port is Some {
        assert(forall|j: int| 0 <= j < pp - 1 ==> is_digit(dec_digits(port->0 as nat)[j]));
        assert(forall|j: int| hp + 1 <= j < hp + pp ==> rest[j] != '/' && rest[j] != ':')
        by {
            assert(forall|j: int|
                hp + 1 <= j < hp + pp ==> is_digit(#[trigger] rest[j]));
        }
        assert(rest[hp] == ':');
    }

    // The first slash of the remainder is where the path was appended.
    let slash_t = hp + pp;
    assert(forall|j: int| 0 <= j < hp ==> rest[j] == host[j]);
    assert(forall|j: int| 0 <= j < path.len() ==> path[j] == #[trigger] rest[slash_t + j]);
    if path.len() == 0 {
        lemma_find_from_target(rest, 0, rest.len() as int, '/');
        assert(find_from(rest, 0, '/') == rest.len());
    } else {
        assert(rest[slash_t] == path[0]);
        lemma_find_from_target(rest, 0, slash_t, '/');
    }
    let slash = find_from(rest, 0, '/');
    assert(slash == slash_t);
    let host_port = rest.subrange(0, slash);
    assert(host_port =~= host + port_part);

    // The last colon of the host-port segment is where the port was appended.
    match port {
        Some(p) => {
            assert(host_port[hp] == ':');
            assert(forall|j: int| hp < j < host_port.len() ==> host_port[j] != ':');
            lemma_rfind_below_some(host_port, host_port.len() as int, hp, ':');
            let port_str = host_port.subrange(hp + 1, host_port.len() as int);
            assert(port_str =~= dec_digits(p as nat));
            assert(is_digit(port_str[0]));
            assert(port_str[0] != '+');
            assert(spec_parse_u16(port_str) == Some(p));
            assert(host_port.subrange(0, hp) =~= host);
        },
        None => {
            assert(forall|j: int| 0 <= j < host_port.len() ==> host_port[j] != ':');
            lemma_rfind_below_none(host_port, host_port.len() as int, ':');
        },
    }
    if path.len() > 0 {
        assert(rest.subrange(slash, rest.len() as int) =~= path);
    }
}

/// A string without `"://"` is rejected, and so is one whose port token after
/// the last `:` of the host segment is not a 16-bit decimal number.
pub proof fn lemma_url_parse_rejects(s: Seq<char>)
    ensures
        find_scheme_sep_from(s, 0) == -1 ==> spec_parse_url(s) == Err::<UrlModel, Seq<char>>(
            msg_missing_protocol(s),
        ),
        ({
            let sep = find_scheme_sep_from(s, 0);
            let protocol = s.subrange(0, sep);
            let rest = s.subrange(sep + 3, s.len() as int);
            let host_port = rest.subrange(0, find_from(rest, 0, '/'));
            let colon = rfind_below(host_port, host_port.len() as int, ':');
            let port_str = host_port.subrange(colon + 1, host_port.len() as int);
            &&& sep >= 0
            &&& (protocol == "http"@ || protocol == "https"@)
            &&& colon >= 0
            &&& spec_parse_u16(port_str) is None
        }) ==> spec_parse_url(s) is Err,
{
}

} // verus!
