//! The control-socket request and response types and their wire codec.
//!
//! Requests arrive over the socket as one JSON object per line and are
//! decoded once, at the boundary; the owner thread only ever sees these
//! values. Responses carry an `ok` flag and an optional error text.
//!
//! The wire contract is deliberately one canonical JSON spelling per
//! value — members in a fixed order, no whitespace between tokens, and
//! escapes only where required — which is what `encode_request` and
//! `encode_response` emit and exactly what the decoders accept. A line in
//! any other spelling counts as malformed and is dropped silently, the
//! same fate malformed lines have always had on this socket; the round
//! trip between the two sides of the protocol is proved below.

use vstd::prelude::*;

verus! {

use crate::json::eat_lit;
use crate::json::emit_string;
use crate::json::lemma_sp_lit_here;
use crate::json::lemma_string_round_trip;
use crate::json::parse_json_string;
use crate::json::push_json_string;
use crate::json::push_lit;
use crate::json::sp_lit;
use crate::json::sp_string;
use crate::strutil::chars_eq;
use crate::strutil::chars_of;
use crate::strutil::string_of;

/// A request sent from a client to the running instance.
pub enum Request {
    /// Check that the server is alive.
    Ping,
    /// Trigger an exec-based restart with state preservation.
    Restart,
    /// Rename a terminal by id.
    TermRename { terminal: String, title: String },
    /// Set a terminal's description by id.
    TermDesc { terminal: String, description: String },
    /// Set a terminal's icon by id (empty clears it).
    TermIcon { terminal: String, icon: String },
    /// Move a terminal to a workspace, creating the workspace if needed.
    TermToWorkspace { terminal: String, workspace_name: String },
    /// Mark a terminal as notified until it is next focused.
    TermNotify { terminal: String },
}

/// A response sent back to the client.
pub struct Response {
    /// Whether the request succeeded.
    pub ok: bool,
    /// The error text, when it did not.
    pub error: Option<String>,
}

impl Response {
    /// The success response.
    pub fn ok() -> (r: Response)
        ensures
            r.ok == true,
            r.error is None,
    {
        Response { ok: true, error: None }
    }

    /// A failure response carrying an error text.
    pub fn error(msg: String) -> (r: Response)
        ensures
            r.ok == false,
            r.error matches Some(e) && e@ == msg@,
    {
        Response { ok: false, error: Some(msg) }
    }
}


/// A request as mathematical values.
pub enum SpecRequest {
    Ping,
    Restart,
    TermRename { terminal: Seq<char>, title: Seq<char> },
    TermDesc { terminal: Seq<char>, description: Seq<char> },
    TermIcon { terminal: Seq<char>, icon: Seq<char> },
    TermToWorkspace { terminal: Seq<char>, workspace_name: Seq<char> },
    TermNotify { terminal: Seq<char> },
}

impl View for Request {
    type V = SpecRequest;

    open spec fn view(&self) -> SpecRequest {
        match self {
            Request::Ping => SpecRequest::Ping,
            Request::Restart => SpecRequest::Restart,
            Request::TermRename { terminal, title } => SpecRequest::TermRename {
                terminal: terminal@,
                title: title@,
            },
            Request::TermDesc { terminal, description } => SpecRequest::TermDesc {
                terminal: terminal@,
                description: description@,
            },
            Request::TermIcon { terminal, icon } => SpecRequest::TermIcon {
                terminal: terminal@,
                icon: icon@,
            },
            Request::TermToWorkspace { terminal, workspace_name } => SpecRequest::TermToWorkspace {
                terminal: terminal@,
                workspace_name: workspace_name@,
            },
            Request::TermNotify { terminal } => SpecRequest::TermNotify { terminal: terminal@ },
        }
    }
}

/// The canonical wire form of a request: one JSON object, tag first.
pub open spec fn spec_emit_request(v: SpecRequest) -> Seq<char> {
    match v {
        SpecRequest::Ping => "{\"cmd\":"@ + emit_string("ping"@) + "}"@,
        SpecRequest::Restart => "{\"cmd\":"@ + emit_string("restart"@) + "}"@,
        SpecRequest::TermRename { terminal, title } => "{\"cmd\":"@ + emit_string("term_rename"@)
            + ",\"terminal\":"@ + emit_string(terminal) + ",\"title\":"@ + emit_string(title)
            + "}"@,
        SpecRequest::TermDesc { terminal, description } => "{\"cmd\":"@ + emit_string(
            "term_desc"@,
        ) + ",\"terminal\":"@ + emit_string(terminal) + ",\"description\":"@ + emit_string(
            description,
        ) + "}"@,
        SpecRequest::TermIcon { terminal, icon } => "{\"cmd\":"@ + emit_string("term_icon"@)
            + ",\"terminal\":"@ + emit_string(terminal) + ",\"icon\":"@ + emit_string(icon)
            + "}"@,
        SpecRequest::TermToWorkspace { terminal, workspace_name } => "{\"cmd\":"@ + emit_string(
            "term_to_workspace"@,
        ) + ",\"terminal\":"@ + emit_string(terminal) + ",\"workspace_name\":"@ + emit_string(
            workspace_name,
        ) + "}"@,
        SpecRequest::TermNotify { terminal } => "{\"cmd\":"@ + emit_string("term_notify"@)
            + ",\"terminal\":"@ + emit_string(terminal) + "}"@,
    }
}

/// Parse one key-prefixed string field: the fixed text `keylit`, then a
/// JSON string.
pub open spec fn sp_field(s: Seq<char>, j: int, keylit: Seq<char>) -> Option<(Seq<char>, int)> {
    match sp_lit(s, j, keylit) {
        None => None,
        Some(j2) => sp_string(s, j2),
    }
}

/// Parse the closing brace, which must end the input.
pub open spec fn sp_end(s: Seq<char>, j: int) -> bool {
    sp_lit(s, j, "}"@) == Some(s.len() as int)
}

/// Parse the canonical wire form of a request.
pub open spec fn sp_request(s: Seq<char>) -> Option<SpecRequest> {
    match sp_lit(s, 0, "{\"cmd\":"@) {
        None => None,
        Some(i) => match sp_string(s, i) {
            None => None,
            Some((tag, j)) => if tag == "ping"@ {
                if sp_end(s, j) {
                    Some(SpecRequest::Ping)
                } else {
                    None
                }
            } else if tag == "restart"@ {
                if sp_end(s, j) {
                    Some(SpecRequest::Restart)
                } else {
                    None
                }
            } else if tag == "term_rename"@ {
                match sp_field(s, j, ",\"terminal\":"@) {
                    None => None,
                    Some((terminal, j2)) => match sp_field(s, j2, ",\"title\":"@) {
                        None => None,
                        Some((title, j3)) => if sp_end(s, j3) {
                            Some(SpecRequest::TermRename { terminal, title })
                        } else {
                            None
                        },
                    },
                }
            } else if tag == "term_desc"@ {
                match sp_field(s, j, ",\"terminal\":"@) {
                    None => None,
                    Some((terminal, j2)) => match sp_field(s, j2, ",\"description\":"@) {
                        None => None,
                        Some((description, j3)) => if sp_end(s, j3) {
                            Some(SpecRequest::TermDesc { terminal, description })
                        } else {
                            None
                        },
                    },
                }
            } else if tag == "term_icon"@ {
                match sp_field(s, j, ",\"terminal\":"@) {
                    None => None,
                    Some((terminal, j2)) => match sp_field(s, j2, ",\"icon\":"@) {
                        None => None,
                        Some((icon, j3)) => if sp_end(s, j3) {
                            Some(SpecRequest::TermIcon { terminal, icon })
                        } else {
                            None
                        },
                    },
                }
            } else if tag == "term_to_workspace"@ {
                match sp_field(s, j, ",\"terminal\":"@) {
                    None => None,
                    Some((terminal, j2)) => match sp_field(s, j2, ",\"workspace_name\":"@) {
                        None => None,
                        Some((workspace_name, j3)) => if sp_end(s, j3) {
                            Some(SpecRequest::TermToWorkspace { terminal, workspace_name })
                        } else {
                            None
                        },
                    },
                }
            } else if tag == "term_notify"@ {
                match sp_field(s, j, ",\"terminal\":"@) {
                    None => None,
                    Some((terminal, j2)) => if sp_end(s, j2) {
                        Some(SpecRequest::TermNotify { terminal })
                    } else {
                        None
                    },
                }
            } else {
                None
            },
        },
    }
}

/// Encode a request in its canonical wire form.
pub fn encode_request(req: &Request) -> (r: String)
    ensures
        r@ == spec_emit_request(req@),
{
    let mut out: Vec<char> = Vec::new();
    push_lit("{\"cmd\":", &mut out);
    match req {
        Request::Ping => {
            let tag = chars_of("ping");
            push_json_string(&tag, &mut out);
            push_lit("}", &mut out);
        },
        Request::Restart => {
            let tag = chars_of("restart");
            push_json_string(&tag, &mut out);
            push_lit("}", &mut out);
        },
        Request::TermRename { terminal, title } => {
            let tag = chars_of("term_rename");
            push_json_string(&tag, &mut out);
            push_lit(",\"terminal\":", &mut out);
            let t = chars_of(terminal.as_str());
            push_json_string(&t, &mut out);
            push_lit(",\"title\":", &mut out);
            let x = chars_of(title.as_str());
            push_json_string(&x, &mut out);
            push_lit("}", &mut out);
        },
        Request::TermDesc { terminal, description } => {
            let tag = chars_of("term_desc");
            push_json_string(&tag, &mut out);
            push_lit(",\"terminal\":", &mut out);
            let t = chars_of(terminal.as_str());
            push_json_string(&t, &mut out);
            push_lit(",\"description\":", &mut out);
            let x = chars_of(description.as_str());
            push_json_string(&x, &mut out);
            push_lit("}", &mut out);
        },
        Request::TermIcon { terminal, icon } => {
            let tag = chars_of("term_icon");
            push_json_string(&tag, &mut out);
            push_lit(",\"terminal\":", &mut out);
            let t = chars_of(terminal.as_str());
            push_json_string(&t, &mut out);
            push_lit(",\"icon\":", &mut out);
            let x = chars_of(icon.as_str());
            push_json_string(&x, &mut out);
            push_lit("}", &mut out);
        },
        Request::TermToWorkspace { terminal, workspace_name } => {
            let tag = chars_of("term_to_workspace");
            push_json_string(&tag, &mut out);
            push_lit(",\"terminal\":", &mut out);
            let t = chars_of(terminal.as_str());
            push_json_string(&t, &mut out);
            push_lit(",\"workspace_name\":", &mut out);
            let x = chars_of(workspace_name.as_str());
            push_json_string(&x, &mut out);
            push_lit("}", &mut out);
        },
        Request::TermNotify { terminal } => {
            let tag = chars_of("term_notify");
            push_json_string(&tag, &mut out);
            push_lit(",\"terminal\":", &mut out);
            let t = chars_of(terminal.as_str());
            push_json_string(&t, &mut out);
            push_lit("}", &mut out);
        },
    }
    string_of(&out)
}


/// The line with any trailing newline characters removed.
pub open spec fn trim_eol(s: Seq<char>) -> Seq<char>
    decreases s.len(),
{
    if s.len() > 0 && (s.last() == '\n' || s.last() == '\r') {
        trim_eol(s.drop_last())
    } else {
        s
    }
}

/// Decode one request line. The canonical wire form — the exact spelling
/// `encode_request` produces, with an optional trailing newline — is the
/// protocol; any other line yields nothing and is dropped by the caller.
pub fn decode_request(line: &str) -> (r: Option<Request>)
    ensures
        match r {
            Some(req) => sp_request(trim_eol(line@)) == Some(req@),
            None => sp_request(trim_eol(line@)) is None,
        },
{
    let cs0 = chars_of(line);
    let mut n = cs0.len();
    proof {
        assert(cs0@.take(n as int) =~= cs0@);
    }
    while n > 0 && (cs0[n - 1] == '\n' || cs0[n - 1] == '\r')
        invariant
            n <= cs0@.len(),
            cs0@ == line@,
            trim_eol(line@) == trim_eol(cs0@.take(n as int)),
        decreases n,
    {
        proof {
            assert(cs0@.take(n as int).last() == cs0@[n - 1]);
            assert(cs0@.take(n as int).drop_last() =~= cs0@.take(n - 1));
        }
        n = n - 1;
    }
    let mut s: Vec<char> = Vec::new();
    let mut k: usize = 0;
    while k < n
        invariant
            k <= n <= cs0@.len(),
            cs0@ == line@,
            s@ == cs0@.take(n as int).subrange(0, k as int),
        decreases n - k,
    {
        s.push(cs0[k]);
        k = k + 1;
        proof {
            assert(s@ =~= cs0@.take(n as int).subrange(0, k as int));
        }
    }
    proof {
        assert(s@ =~= cs0@.take(n as int));
        if cs0@.take(n as int).len() > 0 {
            assert(!(cs0@.take(n as int).last() == '\n' || cs0@.take(n as int).last() == '\r'));
        }
        assert(trim_eol(s@) == s@);
        assert(trim_eol(line@) == s@);
    }
    let head = chars_of("{\"cmd\":");
    proof {
        reveal_strlit("{\"cmd\":");
    }
    let i = match eat_lit(&s, 0, &head) {
        Some(i) => i,
        None => {
            return None;
        },
    };
    let (tag, j) = match parse_json_string(&s, i) {
        Some(p) => p,
        None => {
            return None;
        },
    };
    let brace = chars_of("}");
    proof {
        reveal_strlit("}");
    }
    let t_ping = chars_of("ping");
    let t_restart = chars_of("restart");
    let t_rename = chars_of("term_rename");
    let t_desc = chars_of("term_desc");
    let t_icon = chars_of("term_icon");
    let t_tows = chars_of("term_to_workspace");
    let t_notify = chars_of("term_notify");
    proof {
        reveal_strlit("ping");
        reveal_strlit("restart");
        reveal_strlit("term_rename");
        reveal_strlit("term_desc");
        reveal_strlit("term_icon");
        reveal_strlit("term_to_workspace");
        reveal_strlit("term_notify");
    }
    if chars_eq(&tag, &t_ping) {
        match eat_lit(&s, j, &brace) {
            Some(e) if e == s.len() => Some(Request::Ping),
            _ => None,
        }
    } else if chars_eq(&tag, &t_restart) {
        match eat_lit(&s, j, &brace) {
            Some(e) if e == s.len() => Some(Request::Restart),
            _ => None,
        }
    } else if chars_eq(&tag, &t_rename) {
        let key1 = chars_of(",\"terminal\":");
        let key2 = chars_of(",\"title\":");
        proof {
            reveal_strlit(",\"terminal\":");
            reveal_strlit(",\"title\":");
        }
        match parse_field(&s, j, &key1) {
            None => None,
            Some((terminal, j2)) => match parse_field(&s, j2, &key2) {
                None => None,
                Some((title, j3)) => match eat_lit(&s, j3, &brace) {
                    Some(e) if e == s.len() => Some(
                        Request::TermRename {
                            terminal: string_of(&terminal),
                            title: string_of(&title),
                        },
                    ),
                    _ => None,
                },
            },
        }
    } else if chars_eq(&tag, &t_desc) {
        let key1 = chars_of(",\"terminal\":");
        let key2 = chars_of(",\"description\":");
        proof {
            reveal_strlit(",\"terminal\":");
            reveal_strlit(",\"description\":");
        }
        match parse_field(&s, j, &key1) {
            None => None,
            Some((terminal, j2)) => match parse_field(&s, j2, &key2) {
                None => None,
                Some((description, j3)) => match eat_lit(&s, j3, &brace) {
                    Some(e) if e == s.len() => Some(
                        Request::TermDesc {
                            terminal: string_of(&terminal),
                            description: string_of(&description),
                        },
                    ),
                    _ => None,
                },
            },
        }
    } else if chars_eq(&tag, &t_icon) {
        let key1 = chars_of(",\"terminal\":");
        let key2 = chars_of(",\"icon\":");
        proof {
            reveal_strlit(",\"terminal\":");
            reveal_strlit(",\"icon\":");
        }
        match parse_field(&s, j, &key1) {
            None => None,
            Some((terminal, j2)) => match parse_field(&s, j2, &key2) {
                None => None,
                Some((icon, j3)) => match eat_lit(&s, j3, &brace) {
                    Some(e) if e == s.len() => Some(
                        Request::TermIcon {
                            terminal: string_of(&terminal),
                            icon: string_of(&icon),
                        },
                    ),
                    _ => None,
                },
            },
        }
    } else if chars_eq(&tag, &t_tows) {
        let key1 = chars_of(",\"terminal\":");
        let key2 = chars_of(",\"workspace_name\":");
        proof {
            reveal_strlit(",\"terminal\":");
            reveal_strlit(",\"workspace_name\":");
        }
        match parse_field(&s, j, &key1) {
            None => None,
            Some((terminal, j2)) => match parse_field(&s, j2, &key2) {
                None => None,
                Some((workspace_name, j3)) => match eat_lit(&s, j3, &brace) {
                    Some(e) if e == s.len() => Some(
                        Request::TermToWorkspace {
                            terminal: string_of(&terminal),
                            workspace_name: string_of(&workspace_name),
                        },
                    ),
                    _ => None,
                },
            },
        }
    } else if chars_eq(&tag, &t_notify) {
        let key1 = chars_of(",\"terminal\":");
        proof {
            reveal_strlit(",\"terminal\":");
        }
        match parse_field(&s, j, &key1) {
            None => None,
            Some((terminal, j2)) => match eat_lit(&s, j2, &brace) {
                Some(e) if e == s.len() => Some(
                    Request::TermNotify { terminal: string_of(&terminal) },
                ),
                _ => None,
            },
        }
    } else {
        None
    }
}

/// Parse one key-prefixed string field, as `sp_field` describes.
fn parse_field(s: &Vec<char>, j: usize, keylit: &Vec<char>) -> (r: Option<(Vec<char>, usize)>)
    ensures
        match r {
            Some((v, j2)) => sp_field(s@, j as int, keylit@) == Some((v@, j2 as int)) && j2
                <= s@.len(),
            None => sp_field(s@, j as int, keylit@) is None,
        },
{
    match eat_lit(s, j, keylit) {
        None => None,
        Some(j1) => match parse_json_string(s, j1) {
            None => None,
            Some((v, j2)) => Some((v, j2)),
        },
    }
}


/// Encoding any request and parsing the line back yields exactly the same
/// request: the wire format loses nothing.
pub proof fn lemma_request_round_trip(v: SpecRequest)
    ensures
        sp_request(spec_emit_request(v)) == Some(v),
{
    let e = spec_emit_request(v);
    let a = "{\"cmd\":"@;
    reveal_strlit("{\"cmd\":");
    reveal_strlit("}");
    reveal_strlit("ping");
    reveal_strlit("restart");
    reveal_strlit("term_rename");
    reveal_strlit("term_desc");
    reveal_strlit("term_icon");
    reveal_strlit("term_to_workspace");
    reveal_strlit("term_notify");
    reveal_strlit(",\"terminal\":");
    reveal_strlit(",\"title\":");
    reveal_strlit(",\"description\":");
    reveal_strlit(",\"icon\":");
    reveal_strlit(",\"workspace_name\":");
    assert("term_icon"@ != "term_desc"@) by {
        assert("term_icon"@[5] == 'i' && "term_desc"@[5] == 'd');
    }
    assert("term_notify"@ != "term_rename"@) by {
        assert("term_notify"@[5] == 'n' && "term_rename"@[5] == 'r');
    }
    match v {
        SpecRequest::Ping => {
            lemma_tagged0_round_trip(e, "ping"@);
        },
        SpecRequest::Restart => {
            lemma_tagged0_round_trip(e, "restart"@);
        },
        SpecRequest::TermRename { terminal, title } => {
            lemma_tagged2_round_trip(
                e,
                "term_rename"@,
                ",\"terminal\":"@,
                terminal,
                ",\"title\":"@,
                title,
            );
        },
        SpecRequest::TermDesc { terminal, description } => {
            lemma_tagged2_round_trip(
                e,
                "term_desc"@,
                ",\"terminal\":"@,
                terminal,
                ",\"description\":"@,
                description,
            );
        },
        SpecRequest::TermIcon { terminal, icon } => {
            lemma_tagged2_round_trip(
                e,
                "term_icon"@,
                ",\"terminal\":"@,
                terminal,
                ",\"icon\":"@,
                icon,
            );
        },
        SpecRequest::TermToWorkspace { terminal, workspace_name } => {
            lemma_tagged2_round_trip(
                e,
                "term_to_workspace"@,
                ",\"terminal\":"@,
                terminal,
                ",\"workspace_name\":"@,
                workspace_name,
            );
        },
        SpecRequest::TermNotify { terminal } => {
            lemma_tagged1_round_trip(e, "term_notify"@, ",\"terminal\":"@, terminal);
        },
    }
}

/// Parsing a fieldless tagged object recovers the tag and ends at the end.
proof fn lemma_tagged0_round_trip(e: Seq<char>, tag: Seq<char>)
    requires
        e == "{\"cmd\":"@ + emit_string(tag) + "}"@,
    ensures
        sp_lit(e, 0, "{\"cmd\":"@) == Some("{\"cmd\":"@.len() as int),
        sp_string(e, "{\"cmd\":"@.len() as int) == Some(
            (tag, ("{\"cmd\":"@.len() + emit_string(tag).len()) as int),
        ),
        sp_end(e, ("{\"cmd\":"@.len() + emit_string(tag).len()) as int),
{
    let a = "{\"cmd\":"@;
    let x = emit_string(tag);
    lemma_sp_lit_here(e, 0, a);
    assert forall|k: int| 0 <= k < x.len() implies e[a.len() + k] == #[trigger] x[k] by {}
    lemma_string_round_trip(tag, e, a.len() as int);
    lemma_sp_lit_here(e, (a.len() + x.len()) as int, "}"@);
}

/// Parsing a tagged object with one string field recovers everything.
proof fn lemma_tagged1_round_trip(e: Seq<char>, tag: Seq<char>, k1: Seq<char>, v1: Seq<char>)
    requires
        e == "{\"cmd\":"@ + emit_string(tag) + k1 + emit_string(v1) + "}"@,
    ensures
        sp_lit(e, 0, "{\"cmd\":"@) == Some("{\"cmd\":"@.len() as int),
        sp_string(e, "{\"cmd\":"@.len() as int) == Some(
            (tag, ("{\"cmd\":"@.len() + emit_string(tag).len()) as int),
        ),
        sp_field(e, ("{\"cmd\":"@.len() + emit_string(tag).len()) as int, k1) == Some(
            (
                v1,
                ("{\"cmd\":"@.len() + emit_string(tag).len() + k1.len() + emit_string(v1).len()) as int,
            ),
        ),
        sp_end(
            e,
            ("{\"cmd\":"@.len() + emit_string(tag).len() + k1.len() + emit_string(v1).len()) as int,
        ),
{
    let a = "{\"cmd\":"@;
    let x = emit_string(tag);
    let y1 = emit_string(v1);
    lemma_sp_lit_here(e, 0, a);
    assert forall|k: int| 0 <= k < x.len() implies e[a.len() + k] == #[trigger] x[k] by {}
    lemma_string_round_trip(tag, e, a.len() as int);
    let p1 = a.len() + x.len();
    assert forall|k: int| 0 <= k < k1.len() implies e[p1 + k] == #[trigger] k1[k] by {}
    lemma_sp_lit_here(e, p1 as int, k1);
    let p2 = p1 + k1.len();
    assert forall|k: int| 0 <= k < y1.len() implies e[p2 + k] == #[trigger] y1[k] by {}
    lemma_string_round_trip(v1, e, p2 as int);
    let p3 = p2 + y1.len();
    lemma_sp_lit_here(e, p3 as int, "}"@);
}

/// Parsing a tagged object with two string fields recovers everything.
proof fn lemma_tagged2_round_trip(
    e: Seq<char>,
    tag: Seq<char>,
    k1: Seq<char>,
    v1: Seq<char>,
    k2: Seq<char>,
    v2: Seq<char>,
)
    requires
        e == "{\"cmd\":"@ + emit_string(tag) + k1 + emit_string(v1) + k2 + emit_string(v2)
            + "}"@,
    ensures
        sp_lit(e, 0, "{\"cmd\":"@) == Some("{\"cmd\":"@.len() as int),
        sp_string(e, "{\"cmd\":"@.len() as int) == Some(
            (tag, ("{\"cmd\":"@.len() + emit_string(tag).len()) as int),
        ),
        sp_field(e, ("{\"cmd\":"@.len() + emit_string(tag).len()) as int, k1) == Some(
            (
                v1,
                ("{\"cmd\":"@.len() + emit_string(tag).len() + k1.len() + emit_string(v1).len()) as int,
            ),
        ),
        sp_field(
            e,
            ("{\"cmd\":"@.len() + emit_string(tag).len() + k1.len() + emit_string(v1).len()) as int,
            k2,
        ) == Some(
            (
                v2,
                ("{\"cmd\":"@.len() + emit_string(tag).len() + k1.len() + emit_string(v1).len()
                    + k2.len() + emit_string(v2).len()) as int,
            ),
        ),
        sp_end(
            e,
            ("{\"cmd\":"@.len() + emit_string(tag).len() + k1.len() + emit_string(v1).len()
                + k2.len() + emit_string(v2).len()) as int,
        ),
{
    let a = "{\"cmd\":"@;
    let x = emit_string(tag);
    let y1 = emit_string(v1);
    let y2 = emit_string(v2);
    lemma_sp_lit_here(e, 0, a);
    assert forall|k: int| 0 <= k < x.len() implies e[a.len() + k] == #[trigger] x[k] by {}
    lemma_string_round_trip(tag, e, a.len() as int);
    let p1 = a.len() + x.len();
    assert forall|k: int| 0 <= k < k1.len() implies e[p1 + k] == #[trigger] k1[k] by {}
    lemma_sp_lit_here(e, p1 as int, k1);
    let p2 = p1 + k1.len();
    assert forall|k: int| 0 <= k < y1.len() implies e[p2 + k] == #[trigger] y1[k] by {}
    lemma_string_round_trip(v1, e, p2 as int);
    let p3 = p2 + y1.len();
    assert forall|k: int| 0 <= k < k2.len() implies e[p3 + k] == #[trigger] k2[k] by {}
    lemma_sp_lit_here(e, p3 as int, k2);
    let p4 = p3 + k2.len();
    assert forall|k: int| 0 <= k < y2.len() implies e[p4 + k] == #[trigger] y2[k] by {}
    lemma_string_round_trip(v2, e, p4 as int);
    let p5 = p4 + y2.len();
    lemma_sp_lit_here(e, p5 as int, "}"@);
}


/// A response as mathematical values.
pub struct SpecResponse {
    pub ok: bool,
    pub error: Option<Seq<char>>,
}

impl View for Response {
    type V = SpecResponse;

    open spec fn view(&self) -> SpecResponse {
        SpecResponse {
            ok: self.ok,
            error: match self.error {
                Some(ref e) => Some(e@),
                None => None,
            },
        }
    }
}

/// The canonical wire form of a response.
pub open spec fn spec_emit_response(v: SpecResponse) -> Seq<char> {
    match v.error {
        None => if v.ok {
            "{\"ok\":true}"@
        } else {
            "{\"ok\":false}"@
        },
        Some(e) => if v.ok {
            "{\"ok\":true,\"error\":"@ + emit_string(e) + "}"@
        } else {
            "{\"ok\":false,\"error\":"@ + emit_string(e) + "}"@
        },
    }
}

/// Parse the canonical wire form of a response.
pub open spec fn sp_response(s: Seq<char>) -> Option<SpecResponse> {
    if s == "{\"ok\":true}"@ {
        Some(SpecResponse { ok: true, error: None })
    } else if s == "{\"ok\":false}"@ {
        Some(SpecResponse { ok: false, error: None })
    } else {
        match sp_lit(s, 0, "{\"ok\":true,\"error\":"@) {
            Some(i) => match sp_string(s, i) {
                Some((e, j)) => if sp_end(s, j) {
                    Some(SpecResponse { ok: true, error: Some(e) })
                } else {
                    None
                },
                None => None,
            },
            None => match sp_lit(s, 0, "{\"ok\":false,\"error\":"@) {
                Some(i) => match sp_string(s, i) {
                    Some((e, j)) => if sp_end(s, j) {
                        Some(SpecResponse { ok: false, error: Some(e) })
                    } else {
                        None
                    },
                    None => None,
                },
                None => None,
            },
        }
    }
}

/// Encode a response in its canonical wire form.
pub fn encode_response(resp: &Response) -> (r: String)
    ensures
        r@ == spec_emit_response(resp@),
{
    let mut out: Vec<char> = Vec::new();
    match &resp.error {
        None => {
            if resp.ok {
                push_lit("{\"ok\":true}", &mut out);
            } else {
                push_lit("{\"ok\":false}", &mut out);
            }
        },
        Some(e) => {
            if resp.ok {
                push_lit("{\"ok\":true,\"error\":", &mut out);
            } else {
                push_lit("{\"ok\":false,\"error\":", &mut out);
            }
            let ec = chars_of(e.as_str());
            push_json_string(&ec, &mut out);
            push_lit("}", &mut out);
        },
    }
    proof {
        assert(Seq::<char>::empty() + spec_emit_response(resp@) =~= spec_emit_response(resp@));
    }
    string_of(&out)
}

/// Decode one response line, as `sp_response` describes.
pub fn decode_response(line: &str) -> (r: Option<Response>)
    ensures
        match r {
            Some(resp) => sp_response(trim_eol(line@)) == Some(resp@),
            None => sp_response(trim_eol(line@)) is None,
        },
{
    let cs0 = chars_of(line);
    let mut n = cs0.len();
    proof {
        assert(cs0@.take(n as int) =~= cs0@);
    }
    while n > 0 && (cs0[n - 1] == '\n' || cs0[n - 1] == '\r')
        invariant
            n <= cs0@.len(),
            cs0@ == line@,
            trim_eol(line@) == trim_eol(cs0@.take(n as int)),
        decreases n,
    {
        proof {
            assert(cs0@.take(n as int).last() == cs0@[n - 1]);
            assert(cs0@.take(n as int).drop_last() =~= cs0@.take(n - 1));
        }
        n = n - 1;
    }
    let mut s: Vec<char> = Vec::new();
    let mut k: usize = 0;
    while k < n
        invariant
            k <= n <= cs0@.len(),
            cs0@ == line@,
            s@ == cs0@.take(n as int).subrange(0, k as int),
        decreases n - k,
    {
        s.push(cs0[k]);
        k = k + 1;
        proof {
            assert(s@ =~= cs0@.take(n as int).subrange(0, k as int));
        }
    }
    proof {
        assert(s@ =~= cs0@.take(n as int));
        if cs0@.take(n as int).len() > 0 {
            assert(!(cs0@.take(n as int).last() == '\n' || cs0@.take(n as int).last() == '\r'));
        }
        assert(trim_eol(s@) == s@);
        assert(trim_eol(line@) == s@);
    }
    let lit_true = chars_of("{\"ok\":true}");
    let lit_false = chars_of("{\"ok\":false}");
    proof {
        reveal_strlit("{\"ok\":true}");
        reveal_strlit("{\"ok\":false}");
        reveal_strlit("{\"ok\":true,\"error\":");
        reveal_strlit("{\"ok\":false,\"error\":");
        reveal_strlit("}");
    }
    if chars_eq(&s, &lit_true) {
        return Some(Response { ok: true, error: None });
    }
    if chars_eq(&s, &lit_false) {
        return Some(Response { ok: false, error: None });
    }
    let head_true = chars_of("{\"ok\":true,\"error\":");
    let head_false = chars_of("{\"ok\":false,\"error\":");
    let brace = chars_of("}");
    match eat_lit(&s, 0, &head_true) {
        Some(i) => {
            match parse_json_string(&s, i) {
                Some((e, j)) => match eat_lit(&s, j, &brace) {
                    Some(q) if q == s.len() => Some(
                        Response { ok: true, error: Some(string_of(&e)) },
                    ),
                    _ => None,
                },
                None => None,
            }
        },
        None => {
            match eat_lit(&s, 0, &head_false) {
                Some(i) => {
                    match parse_json_string(&s, i) {
                        Some((e, j)) => match eat_lit(&s, j, &brace) {
                            Some(q) if q == s.len() => Some(
                                Response { ok: false, error: Some(string_of(&e)) },
                            ),
                            _ => None,
                        },
                        None => None,
                    }
                },
                None => None,
            }
        },
    }
}

/// Encoding any response and parsing the line back yields exactly the
/// same response.
pub proof fn lemma_response_round_trip(v: SpecResponse)
    ensures
        sp_response(spec_emit_response(v)) == Some(v),
{
    let e = spec_emit_response(v);
    reveal_strlit("{\"ok\":true}");
    reveal_strlit("{\"ok\":false}");
    reveal_strlit("{\"ok\":true,\"error\":");
    reveal_strlit("{\"ok\":false,\"error\":");
    reveal_strlit("}");
    match v.error {
        None => {
            if v.ok {
            } else {
                assert("{\"ok\":false}"@ != "{\"ok\":true}"@) by {
                    assert("{\"ok\":false}"@[6] == 'f' && "{\"ok\":true}"@[6] == 't');
                }
            }
        },
        Some(err) => {
            let a = if v.ok {
                "{\"ok\":true,\"error\":"@
            } else {
                "{\"ok\":false,\"error\":"@
            };
            let x = emit_string(err);
            assert(e == a + x + "}"@);
            assert(e != "{\"ok\":true}"@ && e != "{\"ok\":false}"@) by {
                assert(e[e.len() - 1] == '}');
                assert(e[e.len() - 2] == '"' || x.len() == 2);
                if e == "{\"ok\":true}"@ {
                    assert(e.len() == 11);
                    assert(a.len() + x.len() + 1 == 11);
                    assert(x.len() >= 2);
                    assert(a.len() >= 19);
                }
                if e == "{\"ok\":false}"@ {
                    assert(e.len() == 12);
                    assert(a.len() + x.len() + 1 == 12);
                    assert(x.len() >= 2);
                    assert(a.len() >= 19);
                }
            }
            lemma_sp_lit_here(e, 0, a);
            if v.ok {
            } else {
                // the true-headed literal cannot match a false response
                assert(sp_lit(e, 0, "{\"ok\":true,\"error\":"@) is None) by {
                    let tl = "{\"ok\":true,\"error\":"@;
                    if sp_lit(e, 0, tl) is Some {
                        assert(e.subrange(0, tl.len() as int) == tl);
                        assert(e.subrange(0, tl.len() as int)[6] == e[6]);
                        assert(e[6] == a[6]);
                        assert(a[6] == 'f' && tl[6] == 't');
                    }
                }
            }
            assert forall|k: int| 0 <= k < x.len() implies e[a.len() + k] == #[trigger] x[k] by {}
            lemma_string_round_trip(err, e, a.len() as int);
            lemma_sp_lit_here(e, (a.len() + x.len()) as int, "}"@);
        },
    }
}


/// What to do about the control-socket path at startup.
pub enum StartupAction {
    /// Another live instance answered on the socket: refuse to start.
    RefuseAlreadyRunning,
    /// The path exists but nothing answers: remove the stale file, then bind.
    RemoveStaleAndBind,
    /// Nothing is in the way: bind directly.
    Bind,
}

/// Decide how to take over the control-socket path. When the path exists,
/// a probe connection tells live instance apart from stale file: an
/// answered probe refuses startup; a dead file is removed and the socket
/// bound in its place.
pub fn socket_startup_action(path_exists: bool, connect_succeeded: bool) -> (r: StartupAction)
    ensures
        path_exists && connect_succeeded ==> r is RefuseAlreadyRunning,
        path_exists && !connect_succeeded ==> r is RemoveStaleAndBind,
        !path_exists ==> r is Bind,
{
    if path_exists {
        if connect_succeeded {
            StartupAction::RefuseAlreadyRunning
        } else {
            StartupAction::RemoveStaleAndBind
        }
    } else {
        StartupAction::Bind
    }
}

} // verus!

