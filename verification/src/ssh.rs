//! Detection of SSH sessions from a command line: parse an `ssh` invocation
//! into user, host and port.

use vstd::prelude::*;

verus! {

use crate::digits::digits_end;
use crate::digits::digits_value;
use crate::digits::parse_u64_at;
use crate::digits::push_u64_digits;
use crate::digits::spec_digits;
use crate::strutil::chars_of;
use crate::strutil::string_of;

/// ASCII whitespace, the separator between command-line tokens.
pub open spec fn is_space(c: char) -> bool {
    c == ' ' || c == '\t' || c == '\n' || c == '\r'
}

/// First index at or after `i` whose character is not a space.
pub open spec fn skip_spaces(s: Seq<char>, i: int) -> int
    decreases s.len() - i,
{
    if 0 <= i && i < s.len() && is_space(s[i]) {
        skip_spaces(s, i + 1)
    } else {
        i
    }
}

/// First index at or after `i` whose character is a space (or the end).
pub open spec fn token_end(s: Seq<char>, i: int) -> int
    decreases s.len() - i,
{
    if 0 <= i && i < s.len() && !is_space(s[i]) {
        token_end(s, i + 1)
    } else {
        i
    }
}

pub proof fn lemma_skip_spaces_bounds(s: Seq<char>, i: int)
    requires
        0 <= i <= s.len(),
    ensures
        i <= skip_spaces(s, i) <= s.len(),
        skip_spaces(s, i) < s.len() ==> !is_space(s[skip_spaces(s, i)]),
        forall|k: int| i <= k < skip_spaces(s, i) ==> is_space(s[k]),
    decreases s.len() - i,
{
    if i < s.len() && is_space(s[i]) {
        lemma_skip_spaces_bounds(s, i + 1);
    }
}

pub proof fn lemma_token_end_bounds(s: Seq<char>, i: int)
    requires
        0 <= i <= s.len(),
    ensures
        i <= token_end(s, i) <= s.len(),
        token_end(s, i) < s.len() ==> is_space(s[token_end(s, i)]),
        forall|k: int| i <= k < token_end(s, i) ==> !is_space(s[k]),
        i < s.len() && !is_space(s[i]) ==> token_end(s, i) > i,
    decreases s.len() - i,
{
    if i < s.len() && !is_space(s[i]) {
        lemma_token_end_bounds(s, i + 1);
    }
}

/// The whitespace-separated tokens of `s`, from position `i` on.
pub open spec fn tokens_from(s: Seq<char>, i: int) -> Seq<Seq<char>>
    decreases s.len() - i via tokens_from_dec
{
    if i < 0 || i >= s.len() {
        Seq::empty()
    } else {
        let j = skip_spaces(s, i);
        if j >= s.len() {
            Seq::empty()
        } else {
            let e = token_end(s, j);
            seq![s.subrange(j, e)] + tokens_from(s, e)
        }
    }
}

#[via_fn]
proof fn tokens_from_dec(s: Seq<char>, i: int) {
    if 0 <= i && i < s.len() {
        lemma_skip_spaces_bounds(s, i);
        let j = skip_spaces(s, i);
        if j < s.len() {
            lemma_token_end_bounds(s, j);
        }
    }
}

/// All whitespace-separated tokens of `s`.
pub open spec fn tokens(s: Seq<char>) -> Seq<Seq<char>> {
    tokens_from(s, 0)
}

/// Split a character sequence into whitespace-separated tokens.
pub fn tokenize(s: &Vec<char>) -> (r: Vec<Vec<char>>)
    ensures
        r.deep_view() == tokens(s@),
{
    let mut r: Vec<Vec<char>> = Vec::new();
    let mut i: usize = 0;
    while i < s.len()
        invariant
            i <= s@.len(),
            tokens(s@) == r.deep_view() + tokens_from(s@, i as int),
        decreases s@.len() - i,
    {
        proof {
            lemma_skip_spaces_bounds(s@, i as int);
        }
        if s[i] == ' ' || s[i] == '\t' || s[i] == '\n' || s[i] == '\r' {
            // a space step does not change the token list
            proof {
                assert(skip_spaces(s@, i as int) == skip_spaces(s@, i + 1));
                assert(tokens_from(s@, i as int) == tokens_from(s@, i + 1));
            }
            i = i + 1;
        } else {
            let ghost start = i as int;
            proof {
                lemma_token_end_bounds(s@, start);
                assert(skip_spaces(s@, start) == start);
            }
            let mut j: usize = i;
            let mut tok: Vec<char> = Vec::new();
            while j < s.len() && !(s[j] == ' ' || s[j] == '\t' || s[j] == '\n' || s[j] == '\r')
                invariant
                    0 <= start <= j <= s@.len(),
                    j <= token_end(s@, start),
                    token_end(s@, start) == token_end(s@, j as int),
                    tok@ == s@.subrange(start, j as int),
                decreases s@.len() - j,
            {
                tok.push(s[j]);
                proof {
                    assert(s@.subrange(start, j + 1) =~= s@.subrange(start, j as int).push(
                        s@[j as int],
                    ));
                    assert(token_end(s@, j as int) == token_end(s@, j + 1));
                    lemma_token_end_bounds(s@, j + 1);
                }
                j = j + 1;
            }
            proof {
                assert(j as int == token_end(s@, start));
                assert(tokens_from(s@, start) == seq![s@.subrange(start, j as int)]
                    + tokens_from(s@, j as int));
            }
            let ghost before = r.deep_view();
            r.push(tok);
            proof {
                assert(r.deep_view() =~~= before.push(s@.subrange(start, j as int)));
                assert(before + tokens_from(s@, start) =~~= r.deep_view() + tokens_from(
                    s@,
                    j as int,
                ));
            }
            i = j;
        }
    }
    proof {
        assert(tokens_from(s@, i as int) == Seq::<Seq<char>>::empty());
        assert(tokens(s@) =~= r.deep_view());
    }
    r
}

/// Whether a token names the ssh binary itself: `ssh` or `..../ssh`.
pub open spec fn is_ssh_bin(t: Seq<char>) -> bool {
    t == "ssh"@ || (t.len() >= 4 && t.subrange(t.len() - 4, t.len() as int) == "/ssh"@)
}

/// Whether a token is a single-letter flag that consumes an argument.
pub open spec fn is_flag_with_arg(t: Seq<char>) -> bool {
    t.len() == 2 && t[0] == '-' && (t[1] == 'b' || t[1] == 'c' || t[1] == 'D' || t[1] == 'E'
        || t[1] == 'e' || t[1] == 'F' || t[1] == 'I' || t[1] == 'i' || t[1] == 'J' || t[1] == 'L'
        || t[1] == 'l' || t[1] == 'm' || t[1] == 'O' || t[1] == 'o' || t[1] == 'Q' || t[1] == 'R'
        || t[1] == 'S' || t[1] == 'W' || t[1] == 'w')
}

/// The port number a token denotes, if it is a valid decimal `u16`
/// (an optional leading `+` is accepted).
pub open spec fn port_of(t: Seq<char>) -> Option<u16> {
    let start: int = if t.len() > 0 && t[0] == '+' {
        1
    } else {
        0
    };
    if start < t.len() && digits_end(t, start) == t.len() && digits_value(t, start, t.len() as int)
        <= 65535 {
        Some(digits_value(t, start, t.len() as int) as u16)
    } else {
        None
    }
}

/// Walk the tokens from `i`, tracking the port option, until the first
/// token that is neither the binary name nor a flag: the destination.
pub open spec fn scan_tokens(ts: Seq<Seq<char>>, i: int, port: Option<u16>) -> Option<
    (Option<u16>, Seq<char>),
>
    decreases ts.len() + 2 - i,
{
    if i < 0 || i >= ts.len() {
        None
    } else {
        let t = ts[i];
        if is_ssh_bin(t) {
            scan_tokens(ts, i + 1, port)
        } else if t == "-p"@ && i + 1 < ts.len() {
            scan_tokens(ts, i + 2, port_of(ts[i + 1]))
        } else if is_flag_with_arg(t) {
            scan_tokens(ts, i + 2, port)
        } else if t.len() > 0 && t[0] == '-' {
            scan_tokens(ts, i + 1, port)
        } else {
            Some((port, t))
        }
    }
}

/// Index of the first `@` in `t`, or the length if there is none.
pub open spec fn first_at(t: Seq<char>) -> int
    decreases t.len(),
{
    if t.len() == 0 {
        0
    } else if t[0] == '@' {
        0
    } else {
        1 + first_at(t.drop_first())
    }
}

pub proof fn lemma_first_at(t: Seq<char>)
    ensures
        0 <= first_at(t) <= t.len(),
        first_at(t) < t.len() ==> t[first_at(t)] == '@',
        forall|k: int| 0 <= k < first_at(t) ==> t[k] != '@',
    decreases t.len(),
{
    if t.len() > 0 && t[0] != '@' {
        lemma_first_at(t.drop_first());
        let f = first_at(t.drop_first());
        assert forall|k: int| 0 <= k < first_at(t) implies t[k] != '@' by {
            if k > 0 {
                assert(t.drop_first()[k - 1] == t[k]);
            }
        }
        if f < t.drop_first().len() {
            assert(t.drop_first()[f] == t[f + 1]);
        }
    }
}

/// A detected SSH session, as mathematical values.
pub struct SpecSshSession {
    pub user: Option<Seq<char>>,
    pub host: Seq<char>,
    pub port: Option<u16>,
    pub full_command: Seq<char>,
}

/// Information about a detected SSH session.
pub struct SshSession {
    /// The user part before `@`, if any.
    pub user: Option<String>,
    /// The host the session connects to.
    pub host: String,
    /// The port given with `-p`, if any.
    pub port: Option<u16>,
    /// The full command line the session was detected from.
    pub full_command: String,
}

impl View for SshSession {
    type V = SpecSshSession;

    open spec fn view(&self) -> SpecSshSession {
        SpecSshSession {
            user: match self.user {
                Some(u) => Some(u@),
                None => None,
            },
            host: self.host@,
            port: self.port,
            full_command: self.full_command@,
        }
    }
}

/// What parsing an ssh command line yields.
pub open spec fn spec_parse_ssh(args: Seq<char>) -> Option<SpecSshSession> {
    match scan_tokens(tokens(args), 0, None) {
        None => None,
        Some((port, dest)) => {
            let cut = first_at(dest);
            if cut < dest.len() {
                Some(
                    SpecSshSession {
                        user: Some(dest.subrange(0, cut)),
                        host: dest.subrange(cut + 1, dest.len() as int),
                        port,
                        full_command: args,
                    },
                )
            } else {
                Some(
                    SpecSshSession { user: None, host: dest, port, full_command: args },
                )
            }
        },
    }
}

/// Compare a token against a short literal.
fn tok_eq(t: &Vec<char>, lit: &Vec<char>) -> (r: bool)
    ensures
        r == (t@ == lit@),
{
    if t.len() != lit.len() {
        return false;
    }
    let mut k: usize = 0;
    while k < t.len()
        invariant
            k <= t@.len(),
            t@.len() == lit@.len(),
            forall|j: int| 0 <= j < k ==> t@[j] == lit@[j],
        decreases t@.len() - k,
    {
        if t[k] != lit[k] {
            return false;
        }
        k = k + 1;
    }
    proof {
        assert(t@ =~= lit@);
    }
    true
}

/// Whether a token names the ssh binary.
fn tok_is_ssh_bin(t: &Vec<char>) -> (r: bool)
    ensures
        r == is_ssh_bin(t@),
{
    let ssh = chars_of("ssh");
    if tok_eq(t, &ssh) {
        return true;
    }
    let n = t.len();
    if n >= 4 {
        let r = t[n - 4] == '/' && t[n - 3] == 's' && t[n - 2] == 's' && t[n - 1] == 'h';
        proof {
            reveal_strlit("/ssh");
            if r {
                assert(t@.subrange(n - 4, n as int) =~= "/ssh"@);
            } else {
                if t@.subrange(n - 4, n as int) == "/ssh"@ {
                    assert(t@[n - 4] == t@.subrange(n - 4, n as int)[0]);
                    assert(t@[n - 3] == t@.subrange(n - 4, n as int)[1]);
                    assert(t@[n - 2] == t@.subrange(n - 4, n as int)[2]);
                    assert(t@[n - 1] == t@.subrange(n - 4, n as int)[3]);
                }
            }
        }
        r
    } else {
        false
    }
}

/// Whether a token is a flag that consumes its own argument.
fn tok_is_flag_with_arg(t: &Vec<char>) -> (r: bool)
    ensures
        r == is_flag_with_arg(t@),
{
    if t.len() != 2 {
        return false;
    }
    if t[0] != '-' {
        return false;
    }
    let c = t[1];
    c == 'b' || c == 'c' || c == 'D' || c == 'E' || c == 'e' || c == 'F' || c == 'I' || c == 'i'
        || c == 'J' || c == 'L' || c == 'l' || c == 'm' || c == 'O' || c == 'o' || c == 'Q'
        || c == 'R' || c == 'S' || c == 'W' || c == 'w'
}

/// Parse a token as a port number.
fn tok_port(t: &Vec<char>) -> (r: Option<u16>)
    ensures
        r == port_of(t@),
{
    let start: usize = if t.len() > 0 && t[0] == '+' {
        1
    } else {
        0
    };
    if start >= t.len() {
        return None;
    }
    match parse_u64_at(t, start) {
        Some((n, j)) => {
            if j == t.len() && n <= 65535 {
                Some(n as u16)
            } else {
                proof {
                    crate::digits::lemma_digits_end_bounds(t@, start as int);
                }
                None
            }
        },
        None => {
            proof {
                crate::digits::lemma_digits_end_bounds(t@, start as int);
            }
            None
        },
    }
}

/// Parse an ssh command line: find the destination among the flags, split
/// it into user and host, and keep the `-p` port if one was given.
pub fn parse_ssh_args(args: &str) -> (r: Option<SshSession>)
    ensures
        match spec_parse_ssh(args@) {
            Some(e) => r matches Some(s) && s@ == e,
            None => r is None,
        },
{
    let cs = chars_of(args);
    let ts = tokenize(&cs);
    let ghost tv = tokens(args@);
    proof {
        assert(ts.deep_view() == tv);
    }
    let dash_p = chars_of("-p");
    proof {
        reveal_strlit("-p");
    }
    let mut i: usize = 0;
    let mut port: Option<u16> = None;
    let mut dest: Option<Vec<char>> = None;
    let ghost scan0 = scan_tokens(tv, 0, None);
    while i < ts.len() && dest.is_none()
        invariant
            i <= tv.len(),
            ts.deep_view() == tv,
            tv == tokens(args@),
            dash_p@ == "-p"@,
            dest is None ==> scan0 == scan_tokens(tv, i as int, port),
            match dest {
                Some(d) => scan0 == Some((port, d@)),
                None => true,
            },
        decreases tv.len() - i,
    {
        proof {
            assert(ts@[i as int]@ =~= tv[i as int]);
        }
        let t = &ts[i];
        if tok_is_ssh_bin(t) {
            i = i + 1;
        } else if tok_eq(t, &dash_p) && i + 1 < ts.len() {
            proof {
                assert(ts@[i + 1]@ =~= tv[i + 1]);
            }
            port = tok_port(&ts[i + 1]);
            i = i + 2;
        } else if tok_is_flag_with_arg(t) {
            proof {
                assert(scan_tokens(tv, i as int, port) == scan_tokens(tv, i + 2, port));
            }
            if i + 1 < ts.len() {
                i = i + 2;
            } else {
                // both skipped positions are past the end; scanning from
                // there and from the end both find nothing
                proof {
                    assert(scan_tokens(tv, i + 2, port) is None);
                    assert(scan_tokens(tv, tv.len() as int, port) is None);
                }
                i = ts.len();
            }
        } else if t.len() > 0 && t[0] == '-' {
            i = i + 1;
        } else {
            dest = Some(ts[i].clone());
            proof {
                assert(ts@[i as int].view() =~= tv[i as int]);
                assert(scan_tokens(tv, i as int, port) == Some((port, tv[i as int])));
            }
            i = ts.len();
        }
    }
    match dest {
        None => {
            proof {
                assert(ts@.len() == ts.deep_view().len());
                assert(i >= tv.len());
                assert(scan_tokens(tv, i as int, port) is None);
            }
            None
        },
        Some(d) => {
            proof {
                lemma_first_at(d@);
            }
            let mut cut: usize = 0;
            let ghost fa = first_at(d@);
            while cut < d.len() && d[cut] != '@'
                invariant
                    0 <= cut <= d@.len(),
                    fa == first_at(d@),
                    0 <= fa <= d@.len(),
                    fa < d@.len() ==> d@[fa] == '@',
                    cut <= fa,
                decreases d@.len() - cut,
            {
                proof {
                    if fa == cut as int {
                        assert(d@[fa] == '@');
                        assert(false);
                    }
                }
                cut = cut + 1;
            }
            proof {
                lemma_first_at(d@);
                if cut < d@.len() {
                    // the loop stopped on an '@', which is the first one
                    assert(d@[cut as int] == '@');
                    if (cut as int) < fa {
                        assert(d@[cut as int] != '@');
                    }
                    assert(cut as int == fa);
                } else {
                    assert(cut as int == fa);
                }
            }
            if cut < d.len() {
                let mut user: Vec<char> = Vec::new();
                let mut k: usize = 0;
                while k < cut
                    invariant
                        k <= cut <= d@.len(),
                        user@ == d@.subrange(0, k as int),
                    decreases cut - k,
                {
                    user.push(d[k]);
                    k = k + 1;
                    proof {
                        assert(user@ =~= d@.subrange(0, k as int));
                    }
                }
                let mut host: Vec<char> = Vec::new();
                let mut k: usize = cut + 1;
                while k < d.len()
                    invariant
                        cut + 1 <= k <= d@.len(),
                        host@ == d@.subrange(cut + 1, k as int),
                    decreases d@.len() - k,
                {
                    host.push(d[k]);
                    k = k + 1;
                    proof {
                        assert(host@ =~= d@.subrange(cut + 1, k as int));
                    }
                }
                Some(
                    SshSession {
                        user: Some(string_of(&user)),
                        host: string_of(&host),
                        port,
                        full_command: string_of(&cs),
                    },
                )
            } else {
                Some(
                    SshSession {
                        user: None,
                        host: string_of(&d),
                        port,
                        full_command: string_of(&cs),
                    },
                )
            }
        },
    }
}

/// The display form of a session: `user@host`, or `host`, then `:port`.
pub open spec fn spec_display(s: SpecSshSession) -> Seq<char> {
    let base = match s.user {
        Some(u) => u + "@"@ + s.host,
        None => s.host,
    };
    match s.port {
        Some(p) => base + ":"@ + spec_digits(p as nat),
        None => base,
    }
}

impl SshSession {
    /// Render this session as `user@host:port`, omitting missing parts.
    pub fn display_string(&self) -> (r: String)
        ensures
            r@ == spec_display(self@),
    {
        let mut out: Vec<char> = Vec::new();
        match &self.user {
            Some(u) => {
                let uc = chars_of(u.as_str());
                let mut k: usize = 0;
                while k < uc.len()
                    invariant
                        k <= uc@.len(),
                        out@ == uc@.subrange(0, k as int),
                    decreases uc@.len() - k,
                {
                    out.push(uc[k]);
                    k = k + 1;
                    proof {
                        assert(out@ =~= uc@.subrange(0, k as int));
                    }
                }
                out.push('@');
                proof {
                    reveal_strlit("@");
                    assert(out@ =~= uc@ + "@"@);
                }
            },
            None => {},
        }
        let hc = chars_of(self.host.as_str());
        let ghost base0 = out@;
        let mut k: usize = 0;
        while k < hc.len()
            invariant
                k <= hc@.len(),
                out@ == base0 + hc@.subrange(0, k as int),
            decreases hc@.len() - k,
        {
            out.push(hc[k]);
            k = k + 1;
            proof {
                assert(out@ =~= base0 + hc@.subrange(0, k as int));
            }
        }
        proof {
            assert(out@ =~= base0 + hc@);
        }
        match self.port {
            Some(p) => {
                out.push(':');
                proof {
                    reveal_strlit(":");
                    assert(out@ =~= (base0 + hc@) + ":"@);
                }
                push_u64_digits(p as u64, &mut out);
            },
            None => {},
        }
        string_of(&out)
    }
}


/// One row of a process table: process id, parent process id, the command
/// name, and the full argument text.
pub struct PsRow {
    /// Process id.
    pub pid: u32,
    /// Parent process id.
    pub ppid: u32,
    /// Command name.
    pub comm: Vec<char>,
    /// Full argument text, tokens joined by single spaces.
    pub args: Vec<char>,
}

/// A process-table row as mathematical values.
pub struct SpecPsRow {
    pub pid: u32,
    pub ppid: u32,
    pub comm: Seq<char>,
    pub args: Seq<char>,
}

impl View for PsRow {
    type V = SpecPsRow;

    open spec fn view(&self) -> SpecPsRow {
        SpecPsRow { pid: self.pid, ppid: self.ppid, comm: self.comm@, args: self.args@ }
    }
}

/// The views of a sequence of rows.
pub open spec fn rows_view(v: Seq<PsRow>) -> Seq<SpecPsRow> {
    Seq::new(v.len(), |i: int| v[i]@)
}

/// A token as an unsigned 32-bit decimal (an optional leading `+` is
/// accepted, as the standard integer parse does).
pub open spec fn u32_of(t: Seq<char>) -> Option<u32> {
    let start: int = if t.len() > 0 && t[0] == '+' {
        1
    } else {
        0
    };
    if start < t.len() && digits_end(t, start) == t.len() && digits_value(t, start, t.len() as int)
        <= u32::MAX {
        Some(digits_value(t, start, t.len() as int) as u32)
    } else {
        None
    }
}

/// Tokens joined by single spaces.
pub open spec fn join_sp(ts: Seq<Seq<char>>) -> Seq<char>
    decreases ts.len(),
{
    if ts.len() == 0 {
        Seq::empty()
    } else if ts.len() == 1 {
        ts[0]
    } else {
        ts[0] + seq![' '] + join_sp(ts.drop_first())
    }
}

/// First index at or after `i` whose character ends the line (or the end).
pub open spec fn line_end(s: Seq<char>, i: int) -> int
    decreases s.len() - i,
{
    if 0 <= i && i < s.len() && s[i] != '\n' {
        line_end(s, i + 1)
    } else {
        i
    }
}

pub proof fn lemma_line_end_bounds(s: Seq<char>, i: int)
    requires
        0 <= i <= s.len(),
    ensures
        i <= line_end(s, i) <= s.len(),
    decreases s.len() - i,
{
    if i < s.len() && s[i] != '\n' {
        lemma_line_end_bounds(s, i + 1);
    }
}

/// The row a line denotes: its first two tokens must be numbers and at
/// least one argument token must follow the command name.
pub open spec fn row_of_line(line: Seq<char>) -> Option<SpecPsRow> {
    let ts = tokens(line);
    if ts.len() >= 4 && u32_of(ts[0]) is Some && u32_of(ts[1]) is Some {
        Some(
            SpecPsRow {
                pid: u32_of(ts[0]).unwrap(),
                ppid: u32_of(ts[1]).unwrap(),
                comm: ts[2],
                args: join_sp(ts.skip(3)),
            },
        )
    } else {
        None
    }
}

/// The rows of the table text from position `i` on, one line at a time,
/// keeping only lines that denote rows.
pub open spec fn rows_from(s: Seq<char>, i: int) -> Seq<SpecPsRow>
    decreases s.len() + 1 - i via rows_from_dec
{
    if i < 0 || i >= s.len() {
        Seq::empty()
    } else {
        let e = line_end(s, i);
        let rest = rows_from(s, e + 1);
        match row_of_line(s.subrange(i, e)) {
            Some(r) => seq![r] + rest,
            None => rest,
        }
    }
}

#[via_fn]
proof fn rows_from_dec(s: Seq<char>, i: int) {
    if 0 <= i && i < s.len() {
        lemma_line_end_bounds(s, i);
    }
}

/// The rows of a process table: every line after the header.
pub open spec fn table_rows(s: Seq<char>) -> Seq<SpecPsRow> {
    rows_from(s, line_end(s, 0) + 1)
}

/// What one scan over the rows finds under a parent: the argument text of
/// the first child running ssh, or the children's pids, in row order.
pub enum ChildScan {
    Found(Seq<char>),
    Kids(Seq<u32>),
}

/// Scan the rows from `k` for children of `parent`: the first ssh child
/// wins; otherwise every child is collected, in row order.
pub open spec fn scan_children(rows: Seq<SpecPsRow>, parent: u32, k: int) -> ChildScan
    decreases rows.len() - k,
{
    if k < 0 || k >= rows.len() {
        ChildScan::Kids(Seq::empty())
    } else if rows[k].ppid == parent {
        if is_ssh_bin(rows[k].comm) {
            ChildScan::Found(rows[k].args)
        } else {
            match scan_children(rows, parent, k + 1) {
                ChildScan::Found(a) => ChildScan::Found(a),
                ChildScan::Kids(kids) => ChildScan::Kids(seq![rows[k].pid] + kids),
            }
        }
    } else {
        scan_children(rows, parent, k + 1)
    }
}

/// Breadth-first walk over the process tree: take the next queued pid,
/// return the first ssh child found under it, else append its children
/// and continue. The fuel bounds the walk: on a well-formed table every
/// row is enqueued at most once, so `rows.len() + 1` steps reach the
/// whole tree; a cyclic table stops instead of walking forever.
pub open spec fn spec_bfs_ssh(
    rows: Seq<SpecPsRow>,
    queue: Seq<u32>,
    qi: int,
    fuel: nat,
) -> Option<Seq<char>>
    decreases fuel,
{
    if fuel == 0 || qi < 0 || qi >= queue.len() {
        None
    } else {
        match scan_children(rows, queue[qi], 0) {
            ChildScan::Found(args) => Some(args),
            ChildScan::Kids(kids) => spec_bfs_ssh(rows, queue + kids, qi + 1, (fuel - 1) as nat),
        }
    }
}

/// What searching a process table for an ssh session under `root` yields:
/// the parse of the first ssh descendant's arguments, if the walk finds
/// one.
pub open spec fn spec_detect_ssh(s: Seq<char>, root: u32) -> Option<SpecSshSession> {
    let rows = table_rows(s);
    match spec_bfs_ssh(rows, seq![root], 0, (rows.len() + 1) as nat) {
        Some(args) => spec_parse_ssh(args),
        None => None,
    }
}

/// Parse a token as an unsigned 32-bit number.
fn tok_u32(t: &Vec<char>) -> (r: Option<u32>)
    ensures
        r == u32_of(t@),
{
    let start: usize = if t.len() > 0 && t[0] == '+' {
        1
    } else {
        0
    };
    if start >= t.len() {
        return None;
    }
    match parse_u64_at(t, start) {
        Some((n, j)) => {
            if j == t.len() && n <= 0xffffffff {
                Some(n as u32)
            } else {
                proof {
                    crate::digits::lemma_digits_end_bounds(t@, start as int);
                }
                None
            }
        },
        None => {
            proof {
                crate::digits::lemma_digits_end_bounds(t@, start as int);
            }
            None
        },
    }
}

/// Join the tokens from `from` on with single spaces, appending to `out`.
fn push_joined(ts: &Vec<Vec<char>>, from: usize, out: &mut Vec<char>)
    requires
        from <= ts@.len(),
    ensures
        final(out)@ == old(out)@ + join_sp(ts.deep_view().skip(from as int)),
    decreases ts@.len() - from,
{
    if from >= ts.len() {
        proof {
            assert(ts.deep_view().skip(from as int) =~= Seq::<Seq<char>>::empty());
            assert(old(out)@ + Seq::<char>::empty() =~= old(out)@);
        }
        return ;
    }
    let ghost rest = ts.deep_view().skip(from as int);
    proof {
        assert(rest[0] == ts@[from as int]@);
    }
    let tok = &ts[from];
    let mut k: usize = 0;
    let ghost base = out@;
    while k < tok.len()
        invariant
            k <= tok@.len(),
            tok@ == ts@[from as int]@,
            out@ == base + tok@.subrange(0, k as int),
        decreases tok@.len() - k,
    {
        out.push(tok[k]);
        k = k + 1;
        proof {
            assert(out@ =~= base + tok@.subrange(0, k as int));
        }
    }
    proof {
        assert(out@ =~= base + tok@);
    }
    if from + 1 < ts.len() {
        out.push(' ');
        push_joined(ts, from + 1, out);
        proof {
            assert(rest.drop_first() =~= ts.deep_view().skip(from + 1));
            assert(rest.len() > 1);
            assert(final(out)@ =~= old(out)@ + (rest[0] + seq![' '] + join_sp(rest.drop_first())));
        }
    } else {
        proof {
            assert(rest.len() == 1);
            assert(final(out)@ =~= old(out)@ + join_sp(rest));
        }
    }
}

/// Parse one line into a row, if it denotes one.
fn parse_row(line: &Vec<char>) -> (r: Option<PsRow>)
    ensures
        match r {
            Some(row) => row_of_line(line@) == Some(row@),
            None => row_of_line(line@) is None,
        },
{
    let ts = tokenize(line);
    proof {
        assert(ts.deep_view() == tokens(line@));
    }
    if ts.len() < 4 {
        return None;
    }
    proof {
        assert(ts@[0]@ == tokens(line@)[0]);
        assert(ts@[1]@ == tokens(line@)[1]);
        assert(ts@[2]@ == tokens(line@)[2]);
    }
    let pid = match tok_u32(&ts[0]) {
        Some(p) => p,
        None => {
            return None;
        },
    };
    let ppid = match tok_u32(&ts[1]) {
        Some(p) => p,
        None => {
            return None;
        },
    };
    let comm = ts[2].clone();
    proof {
        assert(comm@ == tokens(line@)[2]);
    }
    let mut args: Vec<char> = Vec::new();
    push_joined(&ts, 3, &mut args);
    proof {
        assert(ts.deep_view().skip(3) =~= tokens(line@).skip(3));
        assert(Seq::<char>::empty() + join_sp(tokens(line@).skip(3)) =~= join_sp(
            tokens(line@).skip(3),
        ));
    }
    Some(PsRow { pid, ppid, comm, args })
}

/// Parse a process table: split the text into lines, drop the header,
/// and keep every line that denotes a row.
pub fn parse_ps_table(text: &str) -> (r: Vec<PsRow>)
    ensures
        rows_view(r@) == table_rows(text@),
        r@.len() < usize::MAX,
{
    let s = chars_of(text);
    let n = s.len();
    let mut rows: Vec<PsRow> = Vec::new();
    // skip the header line
    let mut i: usize = 0;
    proof {
        lemma_line_end_bounds(s@, 0);
    }
    while i < n && s[i] != '\n'
        invariant
            i <= n,
            n == s@.len(),
            s@ == text@,
            line_end(s@, 0) == line_end(s@, i as int),
        decreases n - i,
    {
        proof {
            assert(line_end(s@, i as int) == line_end(s@, i + 1));
        }
        i = i + 1;
    }
    proof {
        assert(i as int == line_end(s@, 0));
    }
    if i == n {
        // the text is a bare header with no newline: no rows follow
        proof {
            assert(rows_from(s@, i + 1) == Seq::<SpecPsRow>::empty());
            assert(table_rows(s@) =~= rows_view(rows@));
        }
        return rows;
    }
    let mut i = i + 1;
    proof {
        assert(rows_view(rows@) =~= Seq::<SpecPsRow>::empty());
        assert(table_rows(s@) == rows_from(s@, i as int));
    }
    while i < n
        invariant
            s@ == text@,
            n == s@.len(),
            1 <= i,
            rows@.len() < i,
            table_rows(s@) == rows_view(rows@) + rows_from(s@, i as int),
        decreases n - i,
    {
        proof {
            lemma_line_end_bounds(s@, i as int);
        }
        let ghost start = i as int;
        let mut line: Vec<char> = Vec::new();
        while i < s.len() && s[i] != '\n'
            invariant
                0 <= start <= i <= s@.len(),
                s@ == text@,
                i as int <= line_end(s@, start),
                line_end(s@, start) == line_end(s@, i as int),
                line@ == s@.subrange(start, i as int),
            decreases s@.len() - i,
        {
            line.push(s[i]);
            proof {
                assert(s@.subrange(start, i + 1) =~= s@.subrange(start, i as int).push(
                    s@[i as int],
                ));
                assert(line_end(s@, i as int) == line_end(s@, i + 1));
                lemma_line_end_bounds(s@, i + 1);
            }
            i = i + 1;
        }
        proof {
            assert(i as int == line_end(s@, start));
            assert(rows_from(s@, start) == (match row_of_line(s@.subrange(start, i as int)) {
                Some(r) => seq![r] + rows_from(s@, i + 1),
                None => rows_from(s@, i + 1),
            }));
        }
        let ghost before = rows_view(rows@);
        match parse_row(&line) {
            Some(row) => {
                rows.push(row);
                proof {
                    assert(rows_view(rows@) =~= before.push(row@));
                    assert(before + rows_from(s@, start) =~= rows_view(rows@) + rows_from(
                        s@,
                        i + 1,
                    ));
                }
            },
            None => {},
        }
        if i < n {
            i = i + 1;
        } else {
            proof {
                assert(rows_from(s@, i as int) == Seq::<SpecPsRow>::empty());
                assert(rows_from(s@, i + 1) == Seq::<SpecPsRow>::empty());
                assert(table_rows(s@) =~= rows_view(rows@));
            }
            return rows;
        }
    }
    proof {
        assert(rows_from(s@, i as int) == Seq::<SpecPsRow>::empty());
        assert(table_rows(s@) =~= rows_view(rows@));
    }
    rows
}

/// Prepend collected children to a scan outcome.
pub open spec fn scan_prepend(kids: Seq<u32>, rest: ChildScan) -> ChildScan {
    match rest {
        ChildScan::Found(a) => ChildScan::Found(a),
        ChildScan::Kids(more) => ChildScan::Kids(kids + more),
    }
}

proof fn lemma_scan_prepend_chain(rows: Seq<SpecPsRow>, parent: u32, kids: Seq<u32>, k: int)
    requires
        0 <= k < rows.len(),
        rows[k].ppid == parent,
        !is_ssh_bin(rows[k].comm),
    ensures
        scan_prepend(kids, scan_children(rows, parent, k)) == scan_prepend(
            kids.push(rows[k].pid),
            scan_children(rows, parent, k + 1),
        ),
{
    match scan_children(rows, parent, k + 1) {
        ChildScan::Found(a) => {},
        ChildScan::Kids(more) => {
            assert(kids + (seq![rows[k].pid] + more) =~= kids.push(rows[k].pid) + more);
        },
    }
}

/// Search a process table for an ssh session running under `root`: walk
/// the tree breadth-first and parse the first ssh descendant's command
/// line. The walk visits as many queue slots as the table has rows, which
/// covers every process of a well-formed table.
pub fn detect_ssh_in_ps_output(text: &str, root: u32) -> (r: Option<SshSession>)
    ensures
        match spec_detect_ssh(text@, root) {
            Some(e) => r matches Some(x) && x@ == e,
            None => r is None,
        },
{
    let rows = parse_ps_table(text);
    let ghost rv = table_rows(text@);
    let mut queue: Vec<u32> = Vec::new();
    queue.push(root);
    proof {
        assert(queue@ =~= seq![root]);
    }
    let fuel0 = rows.len() + 1;
    let mut fuel = fuel0;
    let mut qi: usize = 0;
    while qi < queue.len() && fuel > 0
        invariant
            rows_view(rows@) == rv,
            rv == table_rows(text@),
            qi <= queue@.len(),
            fuel <= fuel0,
            fuel0 == rows@.len() + 1,
            spec_bfs_ssh(rv, seq![root], 0, fuel0 as nat) == spec_bfs_ssh(
                rv,
                queue@,
                qi as int,
                fuel as nat,
            ),
        decreases fuel,
    {
        let parent = queue[qi];
        let ghost scan0 = scan_children(rv, parent, 0);
        let mut found: Option<Vec<char>> = None;
        let mut kids: Vec<u32> = Vec::new();
        let mut k: usize = 0;
        proof {
            assert(kids@ =~= Seq::<u32>::empty());
            assert(scan_prepend(kids@, scan_children(rv, parent, 0)) == scan0);
        }
        while k < rows.len() && found.is_none()
            invariant
                k <= rows@.len(),
                rows_view(rows@) == rv,
                scan0 == scan_children(rv, parent, 0),
                match found {
                    Some(a) => scan0 == ChildScan::Found(a@),
                    None => scan0 == scan_prepend(kids@, scan_children(rv, parent, k as int)),
                },
            decreases rows@.len() - k,
        {
            proof {
                assert(rows@[k as int]@ == rv[k as int]);
            }
            if rows[k].ppid == parent {
                if tok_is_ssh_bin(&rows[k].comm) {
                    found = Some(rows[k].args.clone());
                    proof {
                        assert(scan_children(rv, parent, k as int) == ChildScan::Found(
                            rv[k as int].args,
                        ));
                    }
                    k = k + 1;
                } else {
                    proof {
                        lemma_scan_prepend_chain(rv, parent, kids@, k as int);
                    }
                    kids.push(rows[k].pid);
                    k = k + 1;
                }
            } else {
                proof {
                    assert(scan_children(rv, parent, k as int) == scan_children(
                        rv,
                        parent,
                        k + 1,
                    ));
                }
                k = k + 1;
            }
        }
        match found {
            Some(args) => {
                proof {
                    assert(spec_bfs_ssh(rv, queue@, qi as int, fuel as nat) == Some(args@));
                }
                let joined = string_of(&args);
                return parse_ssh_args(joined.as_str());
            },
            None => {
                proof {
                    assert(scan_children(rv, parent, rows@.len() as int) == ChildScan::Kids(
                        Seq::<u32>::empty(),
                    ));
                    assert(scan0 == ChildScan::Kids(kids@ + Seq::<u32>::empty()));
                    assert(kids@ + Seq::<u32>::empty() =~= kids@);
                    assert(scan0 == ChildScan::Kids(kids@));
                }
                let ghost qpre = queue@;
                let mut kids = kids;
                queue.append(&mut kids);
                proof {
                    assert(spec_bfs_ssh(rv, qpre, qi as int, fuel as nat) == spec_bfs_ssh(
                        rv,
                        queue@,
                        qi + 1,
                        (fuel - 1) as nat,
                    ));
                }
                qi = qi + 1;
                fuel = fuel - 1;
            },
        }
    }
    proof {
        assert(spec_bfs_ssh(rv, queue@, qi as int, fuel as nat) is None);
    }
    None
}

} // verus!
