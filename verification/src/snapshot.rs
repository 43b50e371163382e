//! The versioned snapshot written before an exec-based restart.
//!
//! The snapshot captures every live session — ids, display metadata, and
//! the raw PTY descriptor/pid pairs that survive the exec — as one JSON
//! document. A reader whose compiled version differs from the file's
//! version field rejects the whole snapshot rather than interpreting any
//! part of it.

use vstd::prelude::*;

verus! {

use crate::digits::is_digit;
use crate::digits::push_u64_digits;
use crate::digits::spec_digits;
use crate::json::eat_lit;
use crate::json::emit_string;
use crate::json::lemma_sp_lit_here;
use crate::json::lemma_string_round_trip;
use crate::json::lemma_u64_round_trip;
use crate::json::parse_json_string;
use crate::json::parse_json_u64;
use crate::json::push_json_string;
use crate::json::push_lit;
use crate::json::sp_lit;
use crate::json::sp_string;
use crate::json::sp_u64;
use crate::strutil::chars_of;
use crate::strutil::string_of;

/// Version for detecting incompatible snapshot format changes.
pub const STATE_VERSION: u32 = 2;

/// Why a snapshot could not be used.
#[derive(Debug)]
pub enum PersistError {
    /// The file did not hold a well-formed snapshot document.
    Parse,
    /// The version field did not match the compiled constant.
    VersionMismatch { expected: u32, found: u32 },
    /// A recorded descriptor is no longer open.
    InvalidFd(i32),
    /// A recorded process is no longer running.
    ProcessNotRunning(u32),
}

/// One persisted terminal: identity, display metadata, and the raw
/// descriptor/pid pair to adopt after the exec.
pub struct PersistedTerminal {
    /// Internal id, the key used by workspace strips.
    pub internal_id: u64,
    /// External id (the `term-` string).
    pub external_id: String,
    /// PTY master file descriptor.
    pub pty_fd: i32,
    /// Child process id.
    pub pty_pid: u32,
    /// Panel width as a fraction of the viewport, in thousandths.
    pub width_permille: u32,
    /// Terminal title.
    pub title: String,
    /// Custom title set over the control socket.
    pub custom_title: Option<String>,
    /// Description set in the in-app dialog.
    pub description: String,
    /// Description set over the control socket.
    pub cli_description: Option<String>,
    /// Icon set over the control socket.
    pub icon: Option<String>,
    /// Working directory reported by the shell.
    pub cwd: Option<String>,
}

/// One persisted workspace: its name, strip order, focus, and terminals.
pub struct PersistedWorkspace {
    /// Workspace name.
    pub name: String,
    /// Panel internal ids, left to right.
    pub panel_order: Vec<u64>,
    /// Index of the focused panel.
    pub focused_index: usize,
    /// The terminals shown in this workspace.
    pub terminals: Vec<PersistedTerminal>,
}

/// The full snapshot: format version, workspaces, and counters.
pub struct PersistedState {
    /// Format version; must equal `STATE_VERSION` to be read back.
    pub version: u32,
    /// All workspaces.
    pub workspaces: Vec<PersistedWorkspace>,
    /// Index of the active workspace.
    pub active_workspace: usize,
    /// Next internal panel id to hand out.
    pub next_id: u64,
}

/// A persisted terminal as mathematical values.
pub struct SpecTerminal {
    pub internal_id: u64,
    pub external_id: Seq<char>,
    pub pty_fd: i32,
    pub pty_pid: u32,
    pub width_permille: u32,
    pub title: Seq<char>,
    pub custom_title: Option<Seq<char>>,
    pub description: Seq<char>,
    pub cli_description: Option<Seq<char>>,
    pub icon: Option<Seq<char>>,
    pub cwd: Option<Seq<char>>,
}

/// A persisted workspace as mathematical values.
pub struct SpecWorkspace {
    pub name: Seq<char>,
    pub panel_order: Seq<u64>,
    pub focused_index: usize,
    pub terminals: Seq<SpecTerminal>,
}

/// The snapshot as mathematical values.
pub struct SpecState {
    pub version: u32,
    pub workspaces: Seq<SpecWorkspace>,
    pub active_workspace: usize,
    pub next_id: u64,
}

/// View of an optional owned string.
pub open spec fn sopt(o: Option<String>) -> Option<Seq<char>> {
    match o {
        Some(s) => Some(s@),
        None => None,
    }
}

impl View for PersistedTerminal {
    type V = SpecTerminal;

    open spec fn view(&self) -> SpecTerminal {
        SpecTerminal {
            internal_id: self.internal_id,
            external_id: self.external_id@,
            pty_fd: self.pty_fd,
            pty_pid: self.pty_pid,
            width_permille: self.width_permille,
            title: self.title@,
            custom_title: sopt(self.custom_title),
            description: self.description@,
            cli_description: sopt(self.cli_description),
            icon: sopt(self.icon),
            cwd: sopt(self.cwd),
        }
    }
}

impl View for PersistedWorkspace {
    type V = SpecWorkspace;

    open spec fn view(&self) -> SpecWorkspace {
        SpecWorkspace {
            name: self.name@,
            panel_order: self.panel_order@,
            focused_index: self.focused_index,
            terminals: Seq::new(self.terminals@.len(), |i: int| self.terminals@[i]@),
        }
    }
}

impl View for PersistedState {
    type V = SpecState;

    open spec fn view(&self) -> SpecState {
        SpecState {
            version: self.version,
            workspaces: Seq::new(self.workspaces@.len(), |i: int| self.workspaces@[i]@),
            active_workspace: self.active_workspace,
            next_id: self.next_id,
        }
    }
}

/// A terminal can be written out when its descriptor is nonnegative.
pub open spec fn term_wf(t: SpecTerminal) -> bool {
    t.pty_fd >= 0
}

/// A workspace can be written out when all its terminals can.
pub open spec fn ws_wf(w: SpecWorkspace) -> bool {
    forall|i: int| 0 <= i < w.terminals.len() ==> term_wf(#[trigger] w.terminals[i])
}

/// A snapshot can be written out when all its workspaces can.
pub open spec fn state_wf(s: SpecState) -> bool {
    forall|i: int| 0 <= i < s.workspaces.len() ==> ws_wf(#[trigger] s.workspaces[i])
}

/// An optional string: `null` or a JSON string.
pub open spec fn emit_opt_string(o: Option<Seq<char>>) -> Seq<char> {
    match o {
        None => "null"@,
        Some(t) => emit_string(t),
    }
}

/// Parse an optional string.
pub open spec fn sp_opt_string(s: Seq<char>, j: int) -> Option<(Option<Seq<char>>, int)> {
    match sp_lit(s, j, "null"@) {
        Some(j2) => Some((None, j2)),
        None => match sp_string(s, j) {
            Some((t, j2)) => Some((Some(t), j2)),
            None => None,
        },
    }
}

/// The items of a list of numbers, comma separated.
pub open spec fn emit_u64_items(v: Seq<u64>) -> Seq<char>
    decreases v.len(),
{
    if v.len() == 0 {
        Seq::empty()
    } else if v.len() == 1 {
        spec_digits(v[0] as nat)
    } else {
        spec_digits(v[0] as nat) + seq![','] + emit_u64_items(v.drop_first())
    }
}

/// A JSON list of numbers.
pub open spec fn emit_u64_list(v: Seq<u64>) -> Seq<char> {
    seq!['['] + emit_u64_items(v) + seq![']']
}

/// The canonical text of one persisted terminal.
pub open spec fn emit_terminal(t: SpecTerminal) -> Seq<char> {
    "{\"internal_id\":"@ + spec_digits(t.internal_id as nat) + ",\"external_id\":"@ + emit_string(
        t.external_id,
    ) + ",\"pty_fd\":"@ + spec_digits(t.pty_fd as nat) + ",\"pty_pid\":"@ + spec_digits(
        t.pty_pid as nat,
    ) + ",\"width_permille\":"@ + spec_digits(t.width_permille as nat) + ",\"title\":"@
        + emit_string(t.title) + ",\"custom_title\":"@ + emit_opt_string(t.custom_title)
        + ",\"description\":"@ + emit_string(t.description) + ",\"cli_description\":"@
        + emit_opt_string(t.cli_description) + ",\"icon\":"@ + emit_opt_string(t.icon)
        + ",\"cwd\":"@ + emit_opt_string(t.cwd) + "}"@
}

/// The items of a list of terminals, comma separated.
pub open spec fn emit_terminal_items(v: Seq<SpecTerminal>) -> Seq<char>
    decreases v.len(),
{
    if v.len() == 0 {
        Seq::empty()
    } else if v.len() == 1 {
        emit_terminal(v[0])
    } else {
        emit_terminal(v[0]) + seq![','] + emit_terminal_items(v.drop_first())
    }
}

/// The canonical text of one persisted workspace.
pub open spec fn emit_workspace(w: SpecWorkspace) -> Seq<char> {
    "{\"name\":"@ + emit_string(w.name) + ",\"panel_order\":"@ + emit_u64_list(w.panel_order)
        + ",\"focused_index\":"@ + spec_digits(w.focused_index as nat) + ",\"terminals\":["@
        + emit_terminal_items(w.terminals) + "]}"@
}

/// The items of a list of workspaces, comma separated.
pub open spec fn emit_workspace_items(v: Seq<SpecWorkspace>) -> Seq<char>
    decreases v.len(),
{
    if v.len() == 0 {
        Seq::empty()
    } else if v.len() == 1 {
        emit_workspace(v[0])
    } else {
        emit_workspace(v[0]) + seq![','] + emit_workspace_items(v.drop_first())
    }
}

/// The canonical text of the whole snapshot.
pub open spec fn emit_state(s: SpecState) -> Seq<char> {
    "{\"version\":"@ + spec_digits(s.version as nat) + ",\"workspaces\":["@ + emit_workspace_items(
        s.workspaces,
    ) + "],\"active_workspace\":"@ + spec_digits(s.active_workspace as nat) + ",\"next_id\":"@
        + spec_digits(s.next_id as nat) + "}"@
}

/// Append an optional string to `out`.
fn push_opt_string(o: &Option<String>, out: &mut Vec<char>)
    ensures
        final(out)@ == old(out)@ + emit_opt_string(sopt(*o)),
{
    match o {
        None => {
            push_lit("null", out);
        },
        Some(t) => {
            let tc = chars_of(t.as_str());
            push_json_string(&tc, out);
        },
    }
}

/// Append the canonical text of a list of numbers to `out`.
fn push_u64_list(v: &Vec<u64>, out: &mut Vec<char>)
    ensures
        final(out)@ == old(out)@ + emit_u64_list(v@),
{
    out.push('[');
    let ghost base = out@;
    let mut k: usize = 0;
    while k < v.len()
        invariant
            k <= v@.len(),
            out@ == base + emit_u64_items(v@.take(k as int)) + if k > 0 && k < v@.len() {
                seq![',']
            } else {
                Seq::empty()
            },
        decreases v@.len() - k,
    {
        push_u64_digits(v[k], out);
        k = k + 1;
        if k < v.len() {
            out.push(',');
        }
        proof {
            lemma_emit_u64_items_snoc(v@, k as int);
            if k < v@.len() {
                assert(out@ =~= base + emit_u64_items(v@.take(k as int)) + seq![',']);
            } else {
                assert(out@ =~= base + emit_u64_items(v@.take(k as int)) + Seq::<char>::empty());
            }
        }
    }
    out.push(']');
    proof {
        assert(v@.take(v@.len() as int) =~= v@);
        assert(out@ =~= old(out)@ + emit_u64_list(v@));
    }
}

/// Rendering the first `k` items then the `k`th (with its separator)
/// matches rendering the first `k + 1`.
proof fn lemma_emit_u64_items_snoc(v: Seq<u64>, k: int)
    requires
        1 <= k <= v.len(),
    ensures
        emit_u64_items(v.take(k)) == if k == 1 {
            spec_digits(v[0] as nat)
        } else {
            emit_u64_items(v.take(k - 1)) + seq![','] + spec_digits(v[k - 1] as nat)
        },
    decreases k,
{
    if k == 1 {
        assert(v.take(1).len() == 1);
        assert(v.take(1)[0] == v[0]);
    } else {
        lemma_emit_u64_items_snoc(v.drop_first(), k - 1);
        let t = v.take(k);
        assert(t.len() == k);
        assert(t[0] == v[0]);
        assert(t.drop_first() =~= v.drop_first().take(k - 1));
        assert(v.take(k - 1).drop_first() =~= v.drop_first().take(k - 2));
        if k == 2 {
            assert(emit_u64_items(v.take(1)) == spec_digits(v[0] as nat));
            assert(v.drop_first().take(1)[0] == v[1]);
            assert(emit_u64_items(v.drop_first().take(1)) == spec_digits(v[1] as nat));
            assert(emit_u64_items(t) == spec_digits(v[0] as nat) + seq![','] + emit_u64_items(
                t.drop_first(),
            ));
        } else {
            assert(emit_u64_items(t) == spec_digits(v[0] as nat) + seq![','] + emit_u64_items(
                t.drop_first(),
            ));
            assert(emit_u64_items(v.take(k - 1)) == spec_digits(v[0] as nat) + seq![',']
                + emit_u64_items(v.take(k - 1).drop_first()));
            assert((spec_digits(v[0] as nat) + seq![','] + emit_u64_items(
                v.drop_first().take(k - 2),
            ) + seq![','] + spec_digits(v.drop_first()[k - 2] as nat)) =~= spec_digits(
                v[0] as nat,
            ) + seq![','] + (emit_u64_items(v.drop_first().take(k - 2)) + seq![','] + spec_digits(
                v.drop_first()[k - 2] as nat,
            )));
            assert(v.drop_first()[k - 2] == v[k - 1]);
        }
    }
}


/// The views of a sequence of persisted terminals.
pub open spec fn terms_view(v: Seq<PersistedTerminal>) -> Seq<SpecTerminal> {
    Seq::new(v.len(), |i: int| v[i]@)
}

/// The views of a sequence of persisted workspaces.
pub open spec fn wss_view(v: Seq<PersistedWorkspace>) -> Seq<SpecWorkspace> {
    Seq::new(v.len(), |i: int| v[i]@)
}

/// Append the canonical text of one terminal to `out`.
#[verifier::rlimit(100)]
fn push_terminal(t: &PersistedTerminal, out: &mut Vec<char>)
    requires
        term_wf(t@),
    ensures
        final(out)@ == old(out)@ + emit_terminal(t@),
{
    push_lit("{\"internal_id\":", out);
    push_u64_digits(t.internal_id, out);
    push_lit(",\"external_id\":", out);
    let c = chars_of(t.external_id.as_str());
    push_json_string(&c, out);
    push_lit(",\"pty_fd\":", out);
    push_u64_digits(t.pty_fd as u64, out);
    push_lit(",\"pty_pid\":", out);
    push_u64_digits(t.pty_pid as u64, out);
    push_lit(",\"width_permille\":", out);
    push_u64_digits(t.width_permille as u64, out);
    push_lit(",\"title\":", out);
    let c = chars_of(t.title.as_str());
    push_json_string(&c, out);
    push_lit(",\"custom_title\":", out);
    push_opt_string(&t.custom_title, out);
    push_lit(",\"description\":", out);
    let c = chars_of(t.description.as_str());
    push_json_string(&c, out);
    push_lit(",\"cli_description\":", out);
    push_opt_string(&t.cli_description, out);
    push_lit(",\"icon\":", out);
    push_opt_string(&t.icon, out);
    push_lit(",\"cwd\":", out);
    push_opt_string(&t.cwd, out);
    push_lit("}", out);
    proof {
        assert((t.pty_fd as u64) as nat == t.pty_fd as nat);
        assert(final(out)@ =~= old(out)@ + emit_terminal(t@));
    }
}

/// Append the comma-separated terminals from `from` on to `out`.
fn push_terminal_items(v: &Vec<PersistedTerminal>, from: usize, out: &mut Vec<char>)
    requires
        from <= v@.len(),
        forall|i: int| 0 <= i < v@.len() ==> term_wf(#[trigger] v@[i]@),
    ensures
        final(out)@ == old(out)@ + emit_terminal_items(terms_view(v@).skip(from as int)),
    decreases v@.len() - from,
{
    if from >= v.len() {
        proof {
            assert(terms_view(v@).skip(from as int) =~= Seq::<SpecTerminal>::empty());
            assert(old(out)@ + Seq::<char>::empty() =~= old(out)@);
        }
        return ;
    }
    push_terminal(&v[from], out);
    let ghost rest = terms_view(v@).skip(from as int);
    proof {
        assert(rest[0] == v@[from as int]@);
    }
    if from + 1 < v.len() {
        out.push(',');
        push_terminal_items(v, from + 1, out);
        proof {
            assert(rest.drop_first() =~= terms_view(v@).skip(from + 1));
            assert(rest.len() > 1);
            assert(final(out)@ =~= old(out)@ + (emit_terminal(rest[0]) + seq![',']
                + emit_terminal_items(rest.drop_first())));
        }
    } else {
        proof {
            assert(rest.len() == 1);
            assert(final(out)@ =~= old(out)@ + emit_terminal_items(rest));
        }
    }
}

/// Append the canonical text of one workspace to `out`.
fn push_workspace(w: &PersistedWorkspace, out: &mut Vec<char>)
    requires
        forall|i: int| 0 <= i < w.terminals@.len() ==> term_wf(#[trigger] w.terminals@[i]@),
    ensures
        final(out)@ == old(out)@ + emit_workspace(w@),
{
    push_lit("{\"name\":", out);
    let c = chars_of(w.name.as_str());
    push_json_string(&c, out);
    push_lit(",\"panel_order\":", out);
    push_u64_list(&w.panel_order, out);
    push_lit(",\"focused_index\":", out);
    push_u64_digits(w.focused_index as u64, out);
    push_lit(",\"terminals\":[", out);
    push_terminal_items(&w.terminals, 0, out);
    push_lit("]}", out);
    proof {
        assert((w.focused_index as u64) as nat == w.focused_index as nat);
        assert(terms_view(w.terminals@).skip(0) =~= w@.terminals);
        assert(final(out)@ =~= old(out)@ + emit_workspace(w@));
    }
}

/// Append the comma-separated workspaces from `from` on to `out`.
fn push_workspace_items(v: &Vec<PersistedWorkspace>, from: usize, out: &mut Vec<char>)
    requires
        from <= v@.len(),
        forall|i: int, j: int|
            0 <= i < v@.len() && 0 <= j < v@[i].terminals@.len() ==> term_wf(
                #[trigger] v@[i].terminals@[j]@,
            ),
    ensures
        final(out)@ == old(out)@ + emit_workspace_items(wss_view(v@).skip(from as int)),
    decreases v@.len() - from,
{
    if from >= v.len() {
        proof {
            assert(wss_view(v@).skip(from as int) =~= Seq::<SpecWorkspace>::empty());
            assert(old(out)@ + Seq::<char>::empty() =~= old(out)@);
        }
        return ;
    }
    push_workspace(&v[from], out);
    let ghost rest = wss_view(v@).skip(from as int);
    proof {
        assert(rest[0] == v@[from as int]@);
    }
    if from + 1 < v.len() {
        out.push(',');
        push_workspace_items(v, from + 1, out);
        proof {
            assert(rest.drop_first() =~= wss_view(v@).skip(from + 1));
            assert(rest.len() > 1);
            assert(final(out)@ =~= old(out)@ + (emit_workspace(rest[0]) + seq![',']
                + emit_workspace_items(rest.drop_first())));
        }
    } else {
        proof {
            assert(rest.len() == 1);
            assert(final(out)@ =~= old(out)@ + emit_workspace_items(rest));
        }
    }
}

/// Serialize the snapshot to its canonical one-line JSON text.
pub fn encode_state(s: &PersistedState) -> (r: String)
    requires
        state_wf(s@),
    ensures
        r@ == emit_state(s@),
{
    let mut out: Vec<char> = Vec::new();
    push_lit("{\"version\":", &mut out);
    push_u64_digits(s.version as u64, &mut out);
    push_lit(",\"workspaces\":[", &mut out);
    proof {
        assert forall|i: int, j: int|
            0 <= i < s.workspaces@.len() && 0 <= j < s.workspaces@[i].terminals@.len() implies term_wf(#[trigger] s.workspaces@[i].terminals@[j]@) by {
            assert(ws_wf(s@.workspaces[i]));
            assert(s@.workspaces[i].terminals[j] == s.workspaces@[i].terminals@[j]@);
        }
    }
    push_workspace_items(&s.workspaces, 0, &mut out);
    push_lit("],\"active_workspace\":", &mut out);
    push_u64_digits(s.active_workspace as u64, &mut out);
    push_lit(",\"next_id\":", &mut out);
    push_u64_digits(s.next_id, &mut out);
    push_lit("}", &mut out);
    proof {
        assert((s.version as u64) as nat == s.version as nat);
        assert((s.active_workspace as u64) as nat == s.active_workspace as nat);
        assert(wss_view(s.workspaces@).skip(0) =~= s@.workspaces);
        assert(out@ =~= emit_state(s@));
    }
    string_of(&out)
}


/// Parse a number that must fit in `u32`.
pub open spec fn sp_u32(s: Seq<char>, i: int) -> Option<(u32, int)> {
    match sp_u64(s, i) {
        Some((n, j)) => if n <= u32::MAX {
            Some((n as u32, j))
        } else {
            None
        },
        None => None,
    }
}

/// Parse a number that must fit in `usize`.
pub open spec fn sp_usize(s: Seq<char>, i: int) -> Option<(usize, int)> {
    match sp_u64(s, i) {
        Some((n, j)) => if n <= usize::MAX {
            Some((n as usize, j))
        } else {
            None
        },
        None => None,
    }
}

/// Parse a nonnegative descriptor number.
pub open spec fn sp_fd(s: Seq<char>, i: int) -> Option<(i32, int)> {
    match sp_u64(s, i) {
        Some((n, j)) => if n <= i32::MAX {
            Some((n as i32, j))
        } else {
            None
        },
        None => None,
    }
}

/// Parse the items of a number list, through the closing bracket.
pub open spec fn sp_u64_items(s: Seq<char>, i: int, fuel: nat) -> Option<(Seq<u64>, int)>
    decreases fuel,
{
    if fuel == 0 {
        None
    } else {
        match sp_u64(s, i) {
            None => None,
            Some((n, j)) => match sp_lit(s, j, "]"@) {
                Some(j2) => Some((seq![n], j2)),
                None => match sp_lit(s, j, ","@) {
                    None => None,
                    Some(j2) => match sp_u64_items(s, j2, (fuel - 1) as nat) {
                        None => None,
                        Some((rest, j3)) => Some((seq![n] + rest, j3)),
                    },
                },
            },
        }
    }
}

/// Parse a JSON list of numbers, brackets included.
pub open spec fn sp_u64_list(s: Seq<char>, i: int) -> Option<(Seq<u64>, int)> {
    match sp_lit(s, i, "["@) {
        None => None,
        Some(j) => match sp_lit(s, j, "]"@) {
            Some(j2) => Some((Seq::empty(), j2)),
            None => sp_u64_items(s, j, s.len() as nat),
        },
    }
}

/// Parse one key-prefixed number field.
pub open spec fn sp_u64_field(s: Seq<char>, j: int, keylit: Seq<char>) -> Option<(u64, int)> {
    match sp_lit(s, j, keylit) {
        None => None,
        Some(j2) => sp_u64(s, j2),
    }
}

/// Parse one key-prefixed string field.
pub open spec fn sp_str_field(s: Seq<char>, j: int, keylit: Seq<char>) -> Option<
    (Seq<char>, int),
> {
    match sp_lit(s, j, keylit) {
        None => None,
        Some(j2) => sp_string(s, j2),
    }
}

/// Parse one key-prefixed optional-string field.
pub open spec fn sp_opt_field(s: Seq<char>, j: int, keylit: Seq<char>) -> Option<
    (Option<Seq<char>>, int),
> {
    match sp_lit(s, j, keylit) {
        None => None,
        Some(j2) => sp_opt_string(s, j2),
    }
}

/// Parse one persisted terminal object.
pub open spec fn sp_terminal(s: Seq<char>, i: int) -> Option<(SpecTerminal, int)> {
    match sp_u64_field(s, i, "{\"internal_id\":"@) {
        None => None,
        Some((internal_id, p1)) => match sp_str_field(s, p1, ",\"external_id\":"@) {
            None => None,
            Some((external_id, p2)) => match sp_lit(s, p2, ",\"pty_fd\":"@) {
                None => None,
                Some(p3a) => match sp_fd(s, p3a) {
                    None => None,
                    Some((pty_fd, p3)) => match sp_lit(s, p3, ",\"pty_pid\":"@) {
                        None => None,
                        Some(p4a) => match sp_u32(s, p4a) {
                            None => None,
                            Some((pty_pid, p4)) => match sp_lit(
                                s,
                                p4,
                                ",\"width_permille\":"@,
                            ) {
                                None => None,
                                Some(p5a) => match sp_u32(s, p5a) {
                                    None => None,
                                    Some((width_permille, p5)) => match sp_str_field(
                                        s,
                                        p5,
                                        ",\"title\":"@,
                                    ) {
                                        None => None,
                                        Some((title, p6)) => match sp_opt_field(
                                            s,
                                            p6,
                                            ",\"custom_title\":"@,
                                        ) {
                                            None => None,
                                            Some((custom_title, p7)) => match sp_str_field(
                                                s,
                                                p7,
                                                ",\"description\":"@,
                                            ) {
                                                None => None,
                                                Some((description, p8)) => match sp_opt_field(
                                                    s,
                                                    p8,
                                                    ",\"cli_description\":"@,
                                                ) {
                                                    None => None,
                                                    Some((cli_description, p9)) => match sp_opt_field(
                                                        s,
                                                        p9,
                                                        ",\"icon\":"@,
                                                    ) {
                                                        None => None,
                                                        Some((icon, p10)) => match sp_opt_field(
                                                            s,
                                                            p10,
                                                            ",\"cwd\":"@,
                                                        ) {
                                                            None => None,
                                                            Some((cwd, p11)) => match sp_lit(
                                                                s,
                                                                p11,
                                                                "}"@,
                                                            ) {
                                                                None => None,
                                                                Some(p12) => Some(
                                                                    (
                                                                        SpecTerminal {
                                                                            internal_id,
                                                                            external_id,
                                                                            pty_fd,
                                                                            pty_pid,
                                                                            width_permille,
                                                                            title,
                                                                            custom_title,
                                                                            description,
                                                                            cli_description,
                                                                            icon,
                                                                            cwd,
                                                                        },
                                                                        p12,
                                                                    ),
                                                                ),
                                                            },
                                                        },
                                                    },
                                                },
                                            },
                                        },
                                    },
                                },
                            },
                        },
                    },
                },
            },
        },
    }
}

/// Parse the items of a terminal list, through the closing bracket.
pub open spec fn sp_terminal_items(s: Seq<char>, i: int, fuel: nat) -> Option<
    (Seq<SpecTerminal>, int),
>
    decreases fuel,
{
    if fuel == 0 {
        None
    } else {
        match sp_terminal(s, i) {
            None => None,
            Some((t, j)) => match sp_lit(s, j, "]"@) {
                Some(j2) => Some((seq![t], j2)),
                None => match sp_lit(s, j, ","@) {
                    None => None,
                    Some(j2) => match sp_terminal_items(s, j2, (fuel - 1) as nat) {
                        None => None,
                        Some((rest, j3)) => Some((seq![t] + rest, j3)),
                    },
                },
            },
        }
    }
}

/// Parse one persisted workspace object.
pub open spec fn sp_workspace(s: Seq<char>, i: int) -> Option<(SpecWorkspace, int)> {
    match sp_str_field(s, i, "{\"name\":"@) {
        None => None,
        Some((name, p1)) => match sp_lit(s, p1, ",\"panel_order\":"@) {
            None => None,
            Some(p2a) => match sp_u64_list(s, p2a) {
                None => None,
                Some((panel_order, p2)) => match sp_lit(s, p2, ",\"focused_index\":"@) {
                    None => None,
                    Some(p3a) => match sp_usize(s, p3a) {
                        None => None,
                        Some((focused_index, p3)) => match sp_lit(s, p3, ",\"terminals\":["@) {
                            None => None,
                            Some(p4) => match sp_lit(s, p4, "]}"@) {
                                Some(p5) => Some(
                                    (
                                        SpecWorkspace {
                                            name,
                                            panel_order,
                                            focused_index,
                                            terminals: Seq::empty(),
                                        },
                                        p5,
                                    ),
                                ),
                                None => match sp_terminal_items(s, p4, s.len() as nat) {
                                    None => None,
                                    Some((terminals, p5)) => match sp_lit(s, p5, "}"@) {
                                        None => None,
                                        Some(p6) => Some(
                                            (
                                                SpecWorkspace {
                                                    name,
                                                    panel_order,
                                                    focused_index,
                                                    terminals,
                                                },
                                                p6,
                                            ),
                                        ),
                                    },
                                },
                            },
                        },
                    },
                },
            },
        },
    }
}

/// Parse the items of a workspace list, through the closing bracket.
pub open spec fn sp_workspace_items(s: Seq<char>, i: int, fuel: nat) -> Option<
    (Seq<SpecWorkspace>, int),
>
    decreases fuel,
{
    if fuel == 0 {
        None
    } else {
        match sp_workspace(s, i) {
            None => None,
            Some((w, j)) => match sp_lit(s, j, "]"@) {
                Some(j2) => Some((seq![w], j2)),
                None => match sp_lit(s, j, ","@) {
                    None => None,
                    Some(j2) => match sp_workspace_items(s, j2, (fuel - 1) as nat) {
                        None => None,
                        Some((rest, j3)) => Some((seq![w] + rest, j3)),
                    },
                },
            },
        }
    }
}

/// Parse the whole snapshot document; it must span the entire input.
pub open spec fn sp_state(s: Seq<char>) -> Option<SpecState> {
    match sp_u64_field(s, 0, "{\"version\":"@) {
        None => None,
        Some((version, p1)) => if version > u32::MAX {
            None
        } else {
            match sp_lit(s, p1, ",\"workspaces\":["@) {
                None => None,
                Some(p2) => match (match sp_lit(s, p2, "]"@) {
                    Some(p3) => Some((Seq::<SpecWorkspace>::empty(), p3)),
                    None => sp_workspace_items(s, p2, s.len() as nat),
                }) {
                    None => None,
                    Some((workspaces, p3)) => match sp_lit(s, p3, ",\"active_workspace\":"@) {
                        None => None,
                        Some(p4a) => match sp_usize(s, p4a) {
                            None => None,
                            Some((active_workspace, p4)) => match sp_lit(
                                s,
                                p4,
                                ",\"next_id\":"@,
                            ) {
                                None => None,
                                Some(p5a) => match sp_u64(s, p5a) {
                                    None => None,
                                    Some((next_id, p5)) => if sp_lit(s, p5, "}"@) == Some(
                                        s.len() as int,
                                    ) {
                                        Some(
                                            SpecState {
                                                version: version as u32,
                                                workspaces,
                                                active_workspace,
                                                next_id,
                                            },
                                        )
                                    } else {
                                        None
                                    },
                                },
                            },
                        },
                    },
                },
            }
        },
    }
}


/// An embedded optional string parses back to itself.
proof fn lemma_opt_string_round_trip(o: Option<Seq<char>>, s: Seq<char>, i: int)
    requires
        0 <= i,
        i + emit_opt_string(o).len() <= s.len(),
        forall|k: int|
            0 <= k < emit_opt_string(o).len() ==> s[i + k] == #[trigger] emit_opt_string(o)[k],
    ensures
        sp_opt_string(s, i) == Some((o, i + emit_opt_string(o).len())),
{
    reveal_strlit("null");
    match o {
        None => {
            lemma_sp_lit_here(s, i, "null"@);
        },
        Some(t) => {
            assert(sp_lit(s, i, "null"@) is None) by {
                if sp_lit(s, i, "null"@) is Some {
                    assert(s.subrange(i, i + 4)[0] == s[i]);
                    assert(s[i + 0] == emit_opt_string(o)[0]);
                    assert(emit_string(t)[0] == '"');
                }
            }
            lemma_string_round_trip(t, s, i);
        },
    }
}

/// Each rendered number-list item takes at least one character.
proof fn lemma_emit_u64_items_min(v: Seq<u64>)
    ensures
        emit_u64_items(v).len() >= v.len(),
    decreases v.len(),
{
    if v.len() > 0 {
        crate::digits::lemma_spec_digits_are_digits(v[0] as nat);
        if v.len() > 1 {
            lemma_emit_u64_items_min(v.drop_first());
        }
    }
}

/// An embedded number-list body followed by `]` parses back to itself.
#[verifier::rlimit(100)]
#[verifier::spinoff_prover]
proof fn lemma_u64_items_round_trip(v: Seq<u64>, s: Seq<char>, i: int, fuel: nat)
    requires
        v.len() >= 1,
        fuel >= v.len(),
        0 <= i,
        i + emit_u64_items(v).len() + 1 <= s.len(),
        forall|k: int|
            0 <= k < emit_u64_items(v).len() ==> s[i + k] == #[trigger] emit_u64_items(v)[k],
        s[i + emit_u64_items(v).len()] == ']',
    ensures
        sp_u64_items(s, i, fuel) == Some((v, i + emit_u64_items(v).len() + 1)),
    decreases v.len(),
{
    let e = emit_u64_items(v);
    let d = spec_digits(v[0] as nat);
    reveal_strlit("]");
    reveal_strlit(",");
    crate::digits::lemma_spec_digits_are_digits(v[0] as nat);
    if v.len() == 1 {
        assert(e == d);
        assert forall|k: int| 0 <= k < d.len() implies s[i + k] == #[trigger] d[k] by {
            assert(s[i + k] == e[k]);
        }
        assert(s[i + d.len() as int] == ']');
        lemma_u64_round_trip(v[0], s, i);
        lemma_sp_lit_here(s, i + d.len() as int, "]"@);
        assert(seq![v[0]] =~= v);
    } else {
        let rest = v.drop_first();
        let er = emit_u64_items(rest);
        assert(e == d + seq![','] + er);
        assert forall|k: int| 0 <= k < d.len() implies s[i + k] == #[trigger] d[k] by {
            assert(s[i + k] == e[k]);
            assert(e[k] == d[k]);
        }
        let j = i + d.len() as int;
        assert(s[i + d.len() as int] == e[d.len() as int]);
        assert(e[d.len() as int] == ',');
        lemma_u64_round_trip(v[0], s, i);
        assert(sp_lit(s, j, "]"@) is None) by {
            if sp_lit(s, j, "]"@) is Some {
                assert(s.subrange(j, j + 1)[0] == s[j]);
            }
        }
        lemma_sp_lit_here(s, j, ","@);
        assert forall|k: int| 0 <= k < er.len() implies s[j + 1 + k] == #[trigger] er[k] by {
            assert(s[i + (d.len() + 1 + k)] == e[d.len() + 1 + k]);
            assert(e[d.len() + 1 + k] == er[k]);
        }
        assert(e.len() == d.len() + 1 + er.len());
        assert(s[j + 1 + er.len() as int] == ']');
        lemma_u64_items_round_trip(rest, s, j + 1, (fuel - 1) as nat);
        assert(seq![v[0]] + rest =~= v);
    }
}

/// An embedded number list parses back to itself.
proof fn lemma_u64_list_round_trip(v: Seq<u64>, s: Seq<char>, i: int)
    requires
        0 <= i,
        i + emit_u64_list(v).len() <= s.len(),
        forall|k: int|
            0 <= k < emit_u64_list(v).len() ==> s[i + k] == #[trigger] emit_u64_list(v)[k],
    ensures
        sp_u64_list(s, i) == Some((v, i + emit_u64_list(v).len())),
{
    let e = emit_u64_list(v);
    let body = emit_u64_items(v);
    reveal_strlit("[");
    reveal_strlit("]");
    assert(e == seq!['['] + body + seq![']']);
    assert(s[i + 0] == e[0]);
    assert(e[0] == '[');
    assert(s.subrange(i, i + 1) =~= "["@) by {
        assert("["@[0] == '[');
        assert(s.subrange(i, i + 1)[0] == s[i]);
    }
    assert(sp_lit(s, i, "["@) == Some(i + 1));
    if v.len() == 0 {
        assert(s[i + 1] == e[1]);
        assert(e[1] == ']');
        assert(s.subrange(i + 1, i + 2) =~= "]"@) by {
            assert("]"@[0] == ']');
            assert(s.subrange(i + 1, i + 2)[0] == s[i + 1]);
        }
        assert(sp_lit(s, i + 1, "]"@) == Some(i + 2));
        assert(Seq::<u64>::empty() =~= v);
    } else {
        crate::digits::lemma_spec_digits_are_digits(v[0] as nat);
        assert(s[i + 1] == e[1]);
        assert(e[1] == body[0]);
        assert(body[0] == spec_digits(v[0] as nat)[0]) by {
            if v.len() == 1 {
            } else {
                assert(body == spec_digits(v[0] as nat) + seq![','] + emit_u64_items(
                    v.drop_first(),
                ));
            }
        }
        assert(is_digit(s[i + 1]));
        assert(sp_lit(s, i + 1, "]"@) is None) by {
            if sp_lit(s, i + 1, "]"@) is Some {
                assert(s.subrange(i + 1, i + 2)[0] == s[i + 1]);
            }
        }
        lemma_emit_u64_items_min(v);
        assert forall|k: int| 0 <= k < body.len() implies s[i + 1 + k] == #[trigger] body[k] by {
            assert(s[i + (1 + k)] == e[1 + k]);
            assert(e[1 + k] == body[k]);
        }
        assert(s[i + (1 + body.len()) as int] == e[(1 + body.len()) as int]);
        assert(e[1 + body.len() as int] == ']');
        lemma_u64_items_round_trip(v, s, i + 1, s.len() as nat);
    }
}

/// The identity and size fields of a terminal's text.
pub open spec fn emit_terminal_head(t: SpecTerminal) -> Seq<char> {
    "{\"internal_id\":"@ + spec_digits(t.internal_id as nat) + ",\"external_id\":"@
        + emit_string(t.external_id) + ",\"pty_fd\":"@ + spec_digits(t.pty_fd as nat)
        + ",\"pty_pid\":"@ + spec_digits(t.pty_pid as nat) + ",\"width_permille\":"@
        + spec_digits(t.width_permille as nat) + ",\"title\":"@ + emit_string(t.title)
}

/// The display-metadata fields of a terminal's text.
pub open spec fn emit_terminal_tail(t: SpecTerminal) -> Seq<char> {
    ",\"custom_title\":"@ + emit_opt_string(t.custom_title) + ",\"description\":"@
        + emit_string(t.description) + ",\"cli_description\":"@ + emit_opt_string(
        t.cli_description,
    ) + ",\"icon\":"@ + emit_opt_string(t.icon) + ",\"cwd\":"@ + emit_opt_string(t.cwd) + "}"@
}

proof fn lemma_emit_terminal_split(t: SpecTerminal)
    ensures
        emit_terminal(t) == emit_terminal_head(t) + emit_terminal_tail(t),
{
    assert(emit_terminal(t) =~= emit_terminal_head(t) + emit_terminal_tail(t));
}

/// An embedded terminal object parses back to itself.
proof fn lemma_terminal_round_trip(t: SpecTerminal, s: Seq<char>, i: int)
    requires
        term_wf(t),
        0 <= i,
        i + emit_terminal(t).len() <= s.len(),
        forall|k: int|
            0 <= k < emit_terminal(t).len() ==> s[i + k] == #[trigger] emit_terminal(t)[k],
    ensures
        sp_terminal(s, i) == Some((t, i + emit_terminal(t).len())),
{
    lemma_emit_terminal_split(t);
    let h = emit_terminal_head(t);
    let g = emit_terminal_tail(t);
    assert forall|k: int| 0 <= k < h.len() implies s[i + k] == #[trigger] h[k] by {
        assert(s[i + k] == emit_terminal(t)[k]);
    }
    assert forall|k: int| 0 <= k < g.len() implies s[i + h.len() + k] == #[trigger] g[k] by {
        assert(s[i + (h.len() + k)] == emit_terminal(t)[h.len() + k]);
    }
    reveal_strlit(",\"custom_title\":");
    assert(g[0] == ',');
    assert(s[i + h.len() as int] == g[0]);
    lemma_terminal_head_round_trip(t, s, i);
    lemma_terminal_tail_round_trip(t, s, i + h.len() as int);
}

/// The head fields of an embedded terminal parse back.
#[verifier::rlimit(100)]
#[verifier::spinoff_prover]
proof fn lemma_terminal_head_round_trip(t: SpecTerminal, s: Seq<char>, i: int)
    requires
        term_wf(t),
        0 <= i,
        i + emit_terminal_head(t).len() < s.len(),
        forall|k: int|
            0 <= k < emit_terminal_head(t).len() ==> s[i + k] == #[trigger] emit_terminal_head(
                t,
            )[k],
        s[i + emit_terminal_head(t).len()] == ',',
    ensures
        ({
            let a1 = "{\"internal_id\":"@;
            let d1 = spec_digits(t.internal_id as nat);
            let a2 = ",\"external_id\":"@;
            let x2 = emit_string(t.external_id);
            let a3 = ",\"pty_fd\":"@;
            let d3 = spec_digits(t.pty_fd as nat);
            let a4 = ",\"pty_pid\":"@;
            let d4 = spec_digits(t.pty_pid as nat);
            let a5 = ",\"width_permille\":"@;
            let d5 = spec_digits(t.width_permille as nat);
            let a6 = ",\"title\":"@;
            let x6 = emit_string(t.title);
            &&& sp_u64_field(s, i, a1) == Some(
                (t.internal_id, (i + a1.len() + d1.len()) as int),
            )
            &&& sp_str_field(s, (i + a1.len() + d1.len()) as int, a2) == Some(
                (t.external_id, (i + a1.len() + d1.len() + a2.len() + x2.len()) as int),
            )
            &&& sp_u64_field(
                s,
                (i + a1.len() + d1.len() + a2.len() + x2.len()) as int,
                a3,
            ) == Some(
                (
                    t.pty_fd as u64,
                    (i + a1.len() + d1.len() + a2.len() + x2.len() + a3.len()
                        + d3.len()) as int,
                ),
            )
            &&& sp_u64_field(
                s,
                (i + a1.len() + d1.len() + a2.len() + x2.len() + a3.len() + d3.len()) as int,
                a4,
            ) == Some(
                (
                    t.pty_pid as u64,
                    (i + a1.len() + d1.len() + a2.len() + x2.len() + a3.len() + d3.len()
                        + a4.len() + d4.len()) as int,
                ),
            )
            &&& sp_u64_field(
                s,
                (i + a1.len() + d1.len() + a2.len() + x2.len() + a3.len() + d3.len() + a4.len()
                    + d4.len()) as int,
                a5,
            ) == Some(
                (
                    t.width_permille as u64,
                    (i + a1.len() + d1.len() + a2.len() + x2.len() + a3.len() + d3.len()
                        + a4.len() + d4.len() + a5.len() + d5.len()) as int,
                ),
            )
            &&& sp_str_field(
                s,
                (i + a1.len() + d1.len() + a2.len() + x2.len() + a3.len() + d3.len() + a4.len()
                    + d4.len() + a5.len() + d5.len()) as int,
                a6,
            ) == Some((t.title, (i + emit_terminal_head(t).len()) as int))
        }),
{
    let e = emit_terminal_head(t);
    reveal_strlit("{\"internal_id\":");
    reveal_strlit(",\"external_id\":");
    reveal_strlit(",\"pty_fd\":");
    reveal_strlit(",\"pty_pid\":");
    reveal_strlit(",\"width_permille\":");
    reveal_strlit(",\"title\":");
    let a1 = "{\"internal_id\":"@;
    let d1 = spec_digits(t.internal_id as nat);
    let a2 = ",\"external_id\":"@;
    let x2 = emit_string(t.external_id);
    let a3 = ",\"pty_fd\":"@;
    let d3 = spec_digits(t.pty_fd as nat);
    let a4 = ",\"pty_pid\":"@;
    let d4 = spec_digits(t.pty_pid as nat);
    let a5 = ",\"width_permille\":"@;
    let d5 = spec_digits(t.width_permille as nat);
    let a6 = ",\"title\":"@;
    let x6 = emit_string(t.title);
    let q0 = i;
    assert forall|k: int| 0 <= k < a1.len() implies s[q0 + k] == #[trigger] a1[k] by {
        assert(s[i + (q0 - i + k)] == e[q0 - i + k]);
    }
    lemma_sp_lit_here(s, q0, a1);
    let q1 = q0 + a1.len() as int;
    assert forall|k: int| 0 <= k < d1.len() implies s[q1 + k] == #[trigger] d1[k] by {
        assert(s[i + (q1 - i + k)] == e[q1 - i + k]);
    }
    assert(s[q1 + d1.len() as int] == a2[0]) by {
        assert(s[i + (q1 - i + d1.len() as int)] == e[q1 - i + d1.len() as int]);
    }
    lemma_u64_round_trip(t.internal_id, s, q1);
    let q2 = q1 + d1.len() as int;
    assert forall|k: int| 0 <= k < a2.len() implies s[q2 + k] == #[trigger] a2[k] by {
        assert(s[i + (q2 - i + k)] == e[q2 - i + k]);
    }
    lemma_sp_lit_here(s, q2, a2);
    let q3 = q2 + a2.len() as int;
    assert forall|k: int| 0 <= k < x2.len() implies s[q3 + k] == #[trigger] x2[k] by {
        assert(s[i + (q3 - i + k)] == e[q3 - i + k]);
    }
    lemma_string_round_trip(t.external_id, s, q3);
    let q4 = q3 + x2.len() as int;
    assert forall|k: int| 0 <= k < a3.len() implies s[q4 + k] == #[trigger] a3[k] by {
        assert(s[i + (q4 - i + k)] == e[q4 - i + k]);
    }
    lemma_sp_lit_here(s, q4, a3);
    let q5 = q4 + a3.len() as int;
    assert forall|k: int| 0 <= k < d3.len() implies s[q5 + k] == #[trigger] d3[k] by {
        assert(s[i + (q5 - i + k)] == e[q5 - i + k]);
    }
    assert(s[q5 + d3.len() as int] == a4[0]) by {
        assert(s[i + (q5 - i + d3.len() as int)] == e[q5 - i + d3.len() as int]);
    }
    assert((t.pty_fd as u64) as nat == t.pty_fd as nat);
    lemma_u64_round_trip(t.pty_fd as u64, s, q5);
    let q6 = q5 + d3.len() as int;
    assert forall|k: int| 0 <= k < a4.len() implies s[q6 + k] == #[trigger] a4[k] by {
        assert(s[i + (q6 - i + k)] == e[q6 - i + k]);
    }
    lemma_sp_lit_here(s, q6, a4);
    let q7 = q6 + a4.len() as int;
    assert forall|k: int| 0 <= k < d4.len() implies s[q7 + k] == #[trigger] d4[k] by {
        assert(s[i + (q7 - i + k)] == e[q7 - i + k]);
    }
    assert(s[q7 + d4.len() as int] == a5[0]) by {
        assert(s[i + (q7 - i + d4.len() as int)] == e[q7 - i + d4.len() as int]);
    }
    assert((t.pty_pid as u64) as nat == t.pty_pid as nat);
    lemma_u64_round_trip(t.pty_pid as u64, s, q7);
    let q8 = q7 + d4.len() as int;
    assert forall|k: int| 0 <= k < a5.len() implies s[q8 + k] == #[trigger] a5[k] by {
        assert(s[i + (q8 - i + k)] == e[q8 - i + k]);
    }
    lemma_sp_lit_here(s, q8, a5);
    let q9 = q8 + a5.len() as int;
    assert forall|k: int| 0 <= k < d5.len() implies s[q9 + k] == #[trigger] d5[k] by {
        assert(s[i + (q9 - i + k)] == e[q9 - i + k]);
    }
    assert(s[q9 + d5.len() as int] == a6[0]) by {
        assert(s[i + (q9 - i + d5.len() as int)] == e[q9 - i + d5.len() as int]);
    }
    assert((t.width_permille as u64) as nat == t.width_permille as nat);
    lemma_u64_round_trip(t.width_permille as u64, s, q9);
    let q10 = q9 + d5.len() as int;
    assert forall|k: int| 0 <= k < a6.len() implies s[q10 + k] == #[trigger] a6[k] by {
        assert(s[i + (q10 - i + k)] == e[q10 - i + k]);
    }
    lemma_sp_lit_here(s, q10, a6);
    let q11 = q10 + a6.len() as int;
    assert forall|k: int| 0 <= k < x6.len() implies s[q11 + k] == #[trigger] x6[k] by {
        assert(s[i + (q11 - i + k)] == e[q11 - i + k]);
    }
    lemma_string_round_trip(t.title, s, q11);
}

/// The tail fields of an embedded terminal parse back.
#[verifier::rlimit(100)]
#[verifier::spinoff_prover]
proof fn lemma_terminal_tail_round_trip(t: SpecTerminal, s: Seq<char>, i: int)
    requires
        0 <= i,
        i + emit_terminal_tail(t).len() <= s.len(),
        forall|k: int|
            0 <= k < emit_terminal_tail(t).len() ==> s[i + k] == #[trigger] emit_terminal_tail(
                t,
            )[k],
    ensures
        ({
            let a7 = ",\"custom_title\":"@;
            let x7 = emit_opt_string(t.custom_title);
            let a8 = ",\"description\":"@;
            let x8 = emit_string(t.description);
            let a9 = ",\"cli_description\":"@;
            let x9 = emit_opt_string(t.cli_description);
            let a10 = ",\"icon\":"@;
            let x10 = emit_opt_string(t.icon);
            let a11 = ",\"cwd\":"@;
            let x11 = emit_opt_string(t.cwd);
            &&& sp_opt_field(s, i, a7) == Some(
                (t.custom_title, (i + a7.len() + x7.len()) as int),
            )
            &&& sp_str_field(s, (i + a7.len() + x7.len()) as int, a8) == Some(
                (t.description, (i + a7.len() + x7.len() + a8.len() + x8.len()) as int),
            )
            &&& sp_opt_field(
                s,
                (i + a7.len() + x7.len() + a8.len() + x8.len()) as int,
                a9,
            ) == Some(
                (
                    t.cli_description,
                    (i + a7.len() + x7.len() + a8.len() + x8.len() + a9.len()
                        + x9.len()) as int,
                ),
            )
            &&& sp_opt_field(
                s,
                (i + a7.len() + x7.len() + a8.len() + x8.len() + a9.len() + x9.len()) as int,
                a10,
            ) == Some(
                (
                    t.icon,
                    (i + a7.len() + x7.len() + a8.len() + x8.len() + a9.len() + x9.len()
                        + a10.len() + x10.len()) as int,
                ),
            )
            &&& sp_opt_field(
                s,
                (i + a7.len() + x7.len() + a8.len() + x8.len() + a9.len() + x9.len()
                    + a10.len() + x10.len()) as int,
                a11,
            ) == Some(
                (
                    t.cwd,
                    (i + a7.len() + x7.len() + a8.len() + x8.len() + a9.len() + x9.len()
                        + a10.len() + x10.len() + a11.len() + x11.len()) as int,
                ),
            )
            &&& sp_lit(
                s,
                (i + a7.len() + x7.len() + a8.len() + x8.len() + a9.len() + x9.len()
                    + a10.len() + x10.len() + a11.len() + x11.len()) as int,
                "}"@,
            ) == Some((i + emit_terminal_tail(t).len()) as int)
        }),
{
    let e = emit_terminal_tail(t);
    reveal_strlit(",\"custom_title\":");
    reveal_strlit(",\"description\":");
    reveal_strlit(",\"cli_description\":");
    reveal_strlit(",\"icon\":");
    reveal_strlit(",\"cwd\":");
    reveal_strlit("}");
    let a7 = ",\"custom_title\":"@;
    let x7 = emit_opt_string(t.custom_title);
    let a8 = ",\"description\":"@;
    let x8 = emit_string(t.description);
    let a9 = ",\"cli_description\":"@;
    let x9 = emit_opt_string(t.cli_description);
    let a10 = ",\"icon\":"@;
    let x10 = emit_opt_string(t.icon);
    let a11 = ",\"cwd\":"@;
    let x11 = emit_opt_string(t.cwd);
    let q12 = i;
    assert forall|k: int| 0 <= k < a7.len() implies s[q12 + k] == #[trigger] a7[k] by {
        assert(s[i + (q12 - i + k)] == e[q12 - i + k]);
    }
    lemma_sp_lit_here(s, q12, a7);
    let q13 = q12 + a7.len() as int;
    assert forall|k: int| 0 <= k < x7.len() implies s[q13 + k] == #[trigger] x7[k] by {
        assert(s[i + (q13 - i + k)] == e[q13 - i + k]);
    }
    lemma_opt_string_round_trip(t.custom_title, s, q13);
    let q14 = q13 + x7.len() as int;
    assert forall|k: int| 0 <= k < a8.len() implies s[q14 + k] == #[trigger] a8[k] by {
        assert(s[i + (q14 - i + k)] == e[q14 - i + k]);
    }
    lemma_sp_lit_here(s, q14, a8);
    let q15 = q14 + a8.len() as int;
    assert forall|k: int| 0 <= k < x8.len() implies s[q15 + k] == #[trigger] x8[k] by {
        assert(s[i + (q15 - i + k)] == e[q15 - i + k]);
    }
    lemma_string_round_trip(t.description, s, q15);
    let q16 = q15 + x8.len() as int;
    assert forall|k: int| 0 <= k < a9.len() implies s[q16 + k] == #[trigger] a9[k] by {
        assert(s[i + (q16 - i + k)] == e[q16 - i + k]);
    }
    lemma_sp_lit_here(s, q16, a9);
    let q17 = q16 + a9.len() as int;
    assert forall|k: int| 0 <= k < x9.len() implies s[q17 + k] == #[trigger] x9[k] by {
        assert(s[i + (q17 - i + k)] == e[q17 - i + k]);
    }
    lemma_opt_string_round_trip(t.cli_description, s, q17);
    let q18 = q17 + x9.len() as int;
    assert forall|k: int| 0 <= k < a10.len() implies s[q18 + k] == #[trigger] a10[k] by {
        assert(s[i + (q18 - i + k)] == e[q18 - i + k]);
    }
    lemma_sp_lit_here(s, q18, a10);
    let q19 = q18 + a10.len() as int;
    assert forall|k: int| 0 <= k < x10.len() implies s[q19 + k] == #[trigger] x10[k] by {
        assert(s[i + (q19 - i + k)] == e[q19 - i + k]);
    }
    lemma_opt_string_round_trip(t.icon, s, q19);
    let q20 = q19 + x10.len() as int;
    assert forall|k: int| 0 <= k < a11.len() implies s[q20 + k] == #[trigger] a11[k] by {
        assert(s[i + (q20 - i + k)] == e[q20 - i + k]);
    }
    lemma_sp_lit_here(s, q20, a11);
    let q21 = q20 + a11.len() as int;
    assert forall|k: int| 0 <= k < x11.len() implies s[q21 + k] == #[trigger] x11[k] by {
        assert(s[i + (q21 - i + k)] == e[q21 - i + k]);
    }
    lemma_opt_string_round_trip(t.cwd, s, q21);
    let q22 = q21 + x11.len() as int;
    assert(s[q22 + 0] == e[q22 - i]);
    assert(e[q22 - i] == '}');
    lemma_sp_lit_here(s, q22, "}"@);
}

/// A rendered terminal takes at least one character.
proof fn lemma_emit_terminal_min(t: SpecTerminal)
    ensures
        emit_terminal(t).len() >= 1,
{
    reveal_strlit("{\"internal_id\":");
}

/// Each rendered terminal-list item takes at least one character.
proof fn lemma_emit_terminal_items_min(v: Seq<SpecTerminal>)
    ensures
        emit_terminal_items(v).len() >= v.len(),
    decreases v.len(),
{
    if v.len() > 0 {
        lemma_emit_terminal_min(v[0]);
        if v.len() > 1 {
            lemma_emit_terminal_items_min(v.drop_first());
        }
    }
}

/// An embedded terminal-list body followed by `]` parses back to itself.
#[verifier::rlimit(100)]
#[verifier::spinoff_prover]
proof fn lemma_terminal_items_round_trip(v: Seq<SpecTerminal>, s: Seq<char>, i: int, fuel: nat)
    requires
        v.len() >= 1,
        fuel >= v.len(),
        forall|q: int| 0 <= q < v.len() ==> term_wf(#[trigger] v[q]),
        0 <= i,
        i + emit_terminal_items(v).len() + 1 <= s.len(),
        forall|k: int|
            0 <= k < emit_terminal_items(v).len() ==> s[i + k] == #[trigger] emit_terminal_items(
                v,
            )[k],
        s[i + emit_terminal_items(v).len()] == ']',
    ensures
        sp_terminal_items(s, i, fuel) == Some((v, i + emit_terminal_items(v).len() + 1)),
    decreases v.len(),
{
    let e = emit_terminal_items(v);
    let d = emit_terminal(v[0]);
    reveal_strlit("]");
    reveal_strlit(",");
    if v.len() == 1 {
        assert(e == d);
        assert forall|k: int| 0 <= k < d.len() implies s[i + k] == #[trigger] d[k] by {
            assert(s[i + k] == e[k]);
        }
        lemma_terminal_round_trip(v[0], s, i);
        lemma_sp_lit_here(s, i + d.len() as int, "]"@);
        assert(seq![v[0]] =~= v);
    } else {
        let rest = v.drop_first();
        let er = emit_terminal_items(rest);
        assert(e == d + seq![','] + er);
        assert forall|k: int| 0 <= k < d.len() implies s[i + k] == #[trigger] d[k] by {
            assert(s[i + k] == e[k]);
            assert(e[k] == d[k]);
        }
        let j = i + d.len() as int;
        assert(s[i + d.len() as int] == e[d.len() as int]);
        assert(e[d.len() as int] == ',');
        lemma_terminal_round_trip(v[0], s, i);
        assert(sp_lit(s, j, "]"@) is None) by {
            if sp_lit(s, j, "]"@) is Some {
                assert(s.subrange(j, j + 1)[0] == s[j]);
            }
        }
        lemma_sp_lit_here(s, j, ","@);
        assert forall|k: int| 0 <= k < er.len() implies s[j + 1 + k] == #[trigger] er[k] by {
            assert(s[i + (d.len() + 1 + k)] == e[d.len() + 1 + k]);
            assert(e[d.len() + 1 + k] == er[k]);
        }
        assert(e.len() == d.len() + 1 + er.len());
        assert(s[j + 1 + er.len() as int] == ']');
        assert forall|q: int| 0 <= q < rest.len() implies term_wf(#[trigger] rest[q]) by {
            assert(rest[q] == v[q + 1]);
        }
        lemma_terminal_items_round_trip(rest, s, j + 1, (fuel - 1) as nat);
        assert(seq![v[0]] + rest =~= v);
    }
}

/// An embedded workspace object parses back to itself.
proof fn lemma_workspace_round_trip(w: SpecWorkspace, s: Seq<char>, i: int)
    requires
        ws_wf(w),
        0 <= i,
        i + emit_workspace(w).len() <= s.len(),
        forall|k: int|
            0 <= k < emit_workspace(w).len() ==> s[i + k] == #[trigger] emit_workspace(w)[k],
    ensures
        sp_workspace(s, i) == Some((w, i + emit_workspace(w).len())),
{
    lemma_workspace_head(w, s, i);
    lemma_workspace_tail(w, s, i);
    proof_workspace_combine(w);
    let a1 = "{\"name\":"@;
    let x1 = emit_string(w.name);
    let a2 = ",\"panel_order\":"@;
    let x2 = emit_u64_list(w.panel_order);
    let a3 = ",\"focused_index\":"@;
    let d3 = spec_digits(w.focused_index as nat);
    let a4 = ",\"terminals\":["@;
    let x4 = emit_terminal_items(w.terminals);
    let p1 = i + a1.len() + x1.len();
    let p2a = p1 + a2.len();
    let p2 = p2a + x2.len();
    let p3a = p2 + a3.len();
    let p3 = p3a + d3.len();
    let p4 = p3 + a4.len();
    assert(sp_str_field(s, i, a1) == Some((w.name, p1 as int)));
    assert(sp_lit(s, p1 as int, a2) == Some(p2a as int));
    assert(sp_u64_list(s, p2a as int) == Some((w.panel_order, p2 as int)));
    assert(sp_lit(s, p2 as int, a3) == Some(p3a as int));
    assert(sp_usize(s, p3a as int) == Some((w.focused_index, p3 as int)));
    assert(sp_lit(s, p3 as int, a4) == Some(p4 as int));
    if w.terminals.len() == 0 {
        assert(sp_lit(s, p4 as int, "]}"@) == Some((i + emit_workspace(w).len()) as int));
        assert(Seq::<SpecTerminal>::empty() =~= w.terminals);
        assert((SpecWorkspace {
            name: w.name,
            panel_order: w.panel_order,
            focused_index: w.focused_index,
            terminals: Seq::<SpecTerminal>::empty(),
        }) == w);
    } else {
        assert(sp_lit(s, p4 as int, "]}"@) is None);
        assert(sp_terminal_items(s, p4 as int, s.len() as nat) == Some(
            (w.terminals, (p4 + x4.len() + 1) as int),
        ));
        assert(sp_lit(s, (p4 + x4.len() + 1) as int, "}"@) == Some(
            (i + emit_workspace(w).len()) as int,
        ));
    }
}

/// Length bookkeeping for the workspace text, and the identity of the
/// reassembled record.
proof fn proof_workspace_combine(w: SpecWorkspace)
    ensures
        emit_workspace(w).len() == "{\"name\":"@.len() + emit_string(w.name).len()
            + ",\"panel_order\":"@.len() + emit_u64_list(w.panel_order).len()
            + ",\"focused_index\":"@.len() + spec_digits(w.focused_index as nat).len()
            + ",\"terminals\":["@.len() + emit_terminal_items(w.terminals).len() + 2,
        (SpecWorkspace {
            name: w.name,
            panel_order: w.panel_order,
            focused_index: w.focused_index,
            terminals: w.terminals,
        }) == w,
{
    reveal_strlit("]}");
}

/// The name and strip-order fields of an embedded workspace parse back.
#[verifier::rlimit(100)]
#[verifier::spinoff_prover]
proof fn lemma_workspace_head(w: SpecWorkspace, s: Seq<char>, i: int)
    requires
        ws_wf(w),
        0 <= i,
        i + emit_workspace(w).len() <= s.len(),
        forall|k: int|
            0 <= k < emit_workspace(w).len() ==> s[i + k] == #[trigger] emit_workspace(w)[k],
    ensures
        ({
            let a1 = "{\"name\":"@;
            let x1 = emit_string(w.name);
            let a2 = ",\"panel_order\":"@;
            let x2 = emit_u64_list(w.panel_order);
            &&& sp_str_field(s, i, a1) == Some((w.name, (i + a1.len() + x1.len()) as int))
            &&& sp_lit(s, (i + a1.len() + x1.len()) as int, a2) == Some(
                (i + a1.len() + x1.len() + a2.len()) as int,
            )
            &&& sp_u64_list(s, (i + a1.len() + x1.len() + a2.len()) as int) == Some(
                (w.panel_order, (i + a1.len() + x1.len() + a2.len() + x2.len()) as int),
            )
        }),
{
    let e = emit_workspace(w);
    reveal_strlit("{\"name\":");
    reveal_strlit(",\"panel_order\":");
    let a1 = "{\"name\":"@;
    let x1 = emit_string(w.name);
    let a2 = ",\"panel_order\":"@;
    let x2 = emit_u64_list(w.panel_order);
    let q0 = i;
    assert forall|k: int| 0 <= k < a1.len() implies s[q0 + k] == #[trigger] a1[k] by {
        assert(s[i + (q0 - i + k)] == e[q0 - i + k]);
    }
    lemma_sp_lit_here(s, q0, a1);
    let q1 = q0 + a1.len() as int;
    assert forall|k: int| 0 <= k < x1.len() implies s[q1 + k] == #[trigger] x1[k] by {
        assert(s[i + (q1 - i + k)] == e[q1 - i + k]);
    }
    lemma_string_round_trip(w.name, s, q1);
    let q2 = q1 + x1.len() as int;
    assert forall|k: int| 0 <= k < a2.len() implies s[q2 + k] == #[trigger] a2[k] by {
        assert(s[i + (q2 - i + k)] == e[q2 - i + k]);
    }
    lemma_sp_lit_here(s, q2, a2);
    let q3 = q2 + a2.len() as int;
    assert forall|k: int| 0 <= k < x2.len() implies s[q3 + k] == #[trigger] x2[k] by {
        assert(s[i + (q3 - i + k)] == e[q3 - i + k]);
    }
    lemma_u64_list_round_trip(w.panel_order, s, q3);
}

/// The focus and terminal fields of an embedded workspace parse back.
#[verifier::rlimit(100)]
#[verifier::spinoff_prover]
proof fn lemma_workspace_tail(w: SpecWorkspace, s: Seq<char>, i: int)
    requires
        ws_wf(w),
        0 <= i,
        i + emit_workspace(w).len() <= s.len(),
        forall|k: int|
            0 <= k < emit_workspace(w).len() ==> s[i + k] == #[trigger] emit_workspace(w)[k],
    ensures
        ({
            let q4 = i + "{\"name\":"@.len() + emit_string(w.name).len()
                + ",\"panel_order\":"@.len() + emit_u64_list(w.panel_order).len();
            let a3 = ",\"focused_index\":"@;
            let d3 = spec_digits(w.focused_index as nat);
            let a4 = ",\"terminals\":["@;
            let x4 = emit_terminal_items(w.terminals);
            &&& sp_lit(s, q4 as int, a3) == Some((q4 + a3.len()) as int)
            &&& sp_usize(s, (q4 + a3.len()) as int) == Some(
                (w.focused_index, (q4 + a3.len() + d3.len()) as int),
            )
            &&& sp_lit(s, (q4 + a3.len() + d3.len()) as int, a4) == Some(
                (q4 + a3.len() + d3.len() + a4.len()) as int,
            )
            &&& (w.terminals.len() == 0 ==> sp_lit(
                s,
                (q4 + a3.len() + d3.len() + a4.len()) as int,
                "]}"@,
            ) == Some((i + emit_workspace(w).len()) as int))
            &&& (w.terminals.len() > 0 ==> {
                &&& sp_lit(s, (q4 + a3.len() + d3.len() + a4.len()) as int, "]}"@) is None
                &&& sp_terminal_items(
                    s,
                    (q4 + a3.len() + d3.len() + a4.len()) as int,
                    s.len() as nat,
                ) == Some(
                    (
                        w.terminals,
                        (q4 + a3.len() + d3.len() + a4.len() + x4.len() + 1) as int,
                    ),
                )
                &&& sp_lit(
                    s,
                    (q4 + a3.len() + d3.len() + a4.len() + x4.len() + 1) as int,
                    "}"@,
                ) == Some((i + emit_workspace(w).len()) as int)
            })
        }),
{
    let e = emit_workspace(w);
    reveal_strlit("{\"name\":");
    reveal_strlit(",\"panel_order\":");
    reveal_strlit(",\"focused_index\":");
    reveal_strlit(",\"terminals\":[");
    reveal_strlit("]}");
    reveal_strlit("}");
    reveal_strlit("{\"internal_id\":");
    let a3 = ",\"focused_index\":"@;
    let d3 = spec_digits(w.focused_index as nat);
    let a4 = ",\"terminals\":["@;
    let x4 = emit_terminal_items(w.terminals);
    let q4 = i + "{\"name\":"@.len() + emit_string(w.name).len() + ",\"panel_order\":"@.len()
        + emit_u64_list(w.panel_order).len();
    assert forall|k: int| 0 <= k < a3.len() implies s[q4 + k] == #[trigger] a3[k] by {
        assert(s[i + (q4 - i + k)] == e[q4 - i + k]);
    }
    lemma_sp_lit_here(s, q4 as int, a3);
    let q5 = q4 + a3.len() as int;
    assert forall|k: int| 0 <= k < d3.len() implies s[q5 + k] == #[trigger] d3[k] by {
        assert(s[i + (q5 - i + k)] == e[q5 - i + k]);
    }
    assert(s[q5 + d3.len() as int] == a4[0]) by {
        assert(s[i + (q5 - i + d3.len() as int)] == e[q5 - i + d3.len() as int]);
    }
    assert((w.focused_index as u64) as nat == w.focused_index as nat);
    lemma_u64_round_trip(w.focused_index as u64, s, q5);
    let q6 = q5 + d3.len() as int;
    assert forall|k: int| 0 <= k < a4.len() implies s[q6 + k] == #[trigger] a4[k] by {
        assert(s[i + (q6 - i + k)] == e[q6 - i + k]);
    }
    lemma_sp_lit_here(s, q6, a4);
    let q7 = q6 + a4.len() as int;
    if w.terminals.len() == 0 {
        assert(x4.len() == 0);
        assert(s[q7 + 0] == e[q7 - i]);
        assert(e[q7 - i] == ']');
        assert(s[q7 + 1] == e[q7 - i + 1]);
        assert(e[q7 - i + 1] == '}');
        assert(s.subrange(q7, q7 + 2) =~= "]}"@) by {
            assert(s.subrange(q7, q7 + 2)[0] == s[q7]);
            assert(s.subrange(q7, q7 + 2)[1] == s[q7 + 1]);
        }
        assert(sp_lit(s, q7, "]}"@) == Some(q7 + 2));
    } else {
        lemma_emit_terminal_min(w.terminals[0]);
        assert(s[q7 + 0] == e[q7 - i]);
        assert(e[q7 - i] == x4[0]);
        assert(x4[0] == emit_terminal(w.terminals[0])[0]) by {
            if w.terminals.len() > 1 {
                assert(x4 == emit_terminal(w.terminals[0]) + seq![','] + emit_terminal_items(
                    w.terminals.drop_first(),
                ));
            }
        }
        assert(emit_terminal(w.terminals[0])[0] == '{');
        assert(sp_lit(s, q7, "]}"@) is None) by {
            if sp_lit(s, q7, "]}"@) is Some {
                assert(s.subrange(q7, q7 + 2)[0] == s[q7]);
            }
        }
        lemma_emit_terminal_items_min(w.terminals);
        assert forall|k: int| 0 <= k < x4.len() implies s[q7 + k] == #[trigger] x4[k] by {
            assert(s[i + (q7 - i + k)] == e[q7 - i + k]);
        }
        assert(s[q7 + x4.len() as int] == e[q7 - i + x4.len() as int]);
        assert(e[q7 - i + x4.len() as int] == ']');
        lemma_terminal_items_round_trip(w.terminals, s, q7, s.len() as nat);
        let q8 = q7 + x4.len() as int + 1;
        assert(s[q8 + 0] == e[q8 - i]);
        assert(e[q8 - i] == '}');
        lemma_sp_lit_here(s, q8, "}"@);
    }
}

/// A rendered workspace takes at least one character.
proof fn lemma_emit_workspace_min(w: SpecWorkspace)
    ensures
        emit_workspace(w).len() >= 1,
{
    reveal_strlit("{\"name\":");
}

/// Each rendered workspace-list item takes at least one character.
proof fn lemma_emit_workspace_items_min(v: Seq<SpecWorkspace>)
    ensures
        emit_workspace_items(v).len() >= v.len(),
    decreases v.len(),
{
    if v.len() > 0 {
        lemma_emit_workspace_min(v[0]);
        if v.len() > 1 {
            lemma_emit_workspace_items_min(v.drop_first());
        }
    }
}

/// An embedded workspace-list body followed by `]` parses back to itself.
#[verifier::rlimit(100)]
#[verifier::spinoff_prover]
proof fn lemma_workspace_items_round_trip(v: Seq<SpecWorkspace>, s: Seq<char>, i: int, fuel: nat)
    requires
        v.len() >= 1,
        fuel >= v.len(),
        forall|q: int| 0 <= q < v.len() ==> ws_wf(#[trigger] v[q]),
        0 <= i,
        i + emit_workspace_items(v).len() + 1 <= s.len(),
        forall|k: int|
            0 <= k < emit_workspace_items(v).len() ==> s[i + k] == #[trigger] emit_workspace_items(
                v,
            )[k],
        s[i + emit_workspace_items(v).len()] == ']',
    ensures
        sp_workspace_items(s, i, fuel) == Some((v, i + emit_workspace_items(v).len() + 1)),
    decreases v.len(),
{
    let e = emit_workspace_items(v);
    let d = emit_workspace(v[0]);
    reveal_strlit("]");
    reveal_strlit(",");
    if v.len() == 1 {
        assert(e == d);
        assert forall|k: int| 0 <= k < d.len() implies s[i + k] == #[trigger] d[k] by {
            assert(s[i + k] == e[k]);
        }
        lemma_workspace_round_trip(v[0], s, i);
        lemma_sp_lit_here(s, i + d.len() as int, "]"@);
        assert(seq![v[0]] =~= v);
    } else {
        let rest = v.drop_first();
        let er = emit_workspace_items(rest);
        assert(e == d + seq![','] + er);
        assert forall|k: int| 0 <= k < d.len() implies s[i + k] == #[trigger] d[k] by {
            assert(s[i + k] == e[k]);
            assert(e[k] == d[k]);
        }
        let j = i + d.len() as int;
        assert(s[i + d.len() as int] == e[d.len() as int]);
        assert(e[d.len() as int] == ',');
        lemma_workspace_round_trip(v[0], s, i);
        assert(sp_lit(s, j, "]"@) is None) by {
            if sp_lit(s, j, "]"@) is Some {
                assert(s.subrange(j, j + 1)[0] == s[j]);
            }
        }
        lemma_sp_lit_here(s, j, ","@);
        assert forall|k: int| 0 <= k < er.len() implies s[j + 1 + k] == #[trigger] er[k] by {
            assert(s[i + (d.len() + 1 + k)] == e[d.len() + 1 + k]);
            assert(e[d.len() + 1 + k] == er[k]);
        }
        assert(e.len() == d.len() + 1 + er.len());
        assert(s[j + 1 + er.len() as int] == ']');
        assert forall|q: int| 0 <= q < rest.len() implies ws_wf(#[trigger] rest[q]) by {
            assert(rest[q] == v[q + 1]);
        }
        lemma_workspace_items_round_trip(rest, s, j + 1, (fuel - 1) as nat);
        assert(seq![v[0]] + rest =~= v);
    }
}

/// Serializing a snapshot and parsing the text back yields a structurally
/// equal snapshot: nothing recorded before a restart is lost or changed by
/// the trip through the file.
pub proof fn lemma_state_round_trip(v: SpecState)
    requires
        state_wf(v),
    ensures
        sp_state(emit_state(v)) == Some(v),
{
    let s = emit_state(v);
    state_head_round_trip(v, s);
    state_ws_block_round_trip(v, s);
    let q5 = "{\"version\":"@.len() + spec_digits(v.version as nat).len()
        + ",\"workspaces\":["@.len() + emit_workspace_items(v.workspaces).len()
        + "],\"active_workspace\":"@.len();
    finish_state_round_trip(v, s, q5 as int);
    assert((SpecState {
        version: v.version,
        workspaces: v.workspaces,
        active_workspace: v.active_workspace,
        next_id: v.next_id,
    }) == v);
}

/// The version prefix of the snapshot text parses back.
#[verifier::rlimit(100)]
#[verifier::spinoff_prover]
proof fn state_head_round_trip(v: SpecState, s: Seq<char>)
    requires
        s == emit_state(v),
    ensures
        ({
            let a1 = "{\"version\":"@;
            let d1 = spec_digits(v.version as nat);
            let a2 = ",\"workspaces\":["@;
            &&& sp_u64_field(s, 0, a1) == Some((v.version as u64, (a1.len() + d1.len()) as int))
            &&& sp_lit(s, (a1.len() + d1.len()) as int, a2) == Some(
                (a1.len() + d1.len() + a2.len()) as int,
            )
        }),
{
    reveal_strlit("{\"version\":");
    reveal_strlit(",\"workspaces\":[");
    let a1 = "{\"version\":"@;
    let d1 = spec_digits(v.version as nat);
    let a2 = ",\"workspaces\":["@;
    let x2 = emit_workspace_items(v.workspaces);
    let a3 = "],\"active_workspace\":"@;
    let d3 = spec_digits(v.active_workspace as nat);
    let a4 = ",\"next_id\":"@;
    let d4 = spec_digits(v.next_id as nat);
    assert(s == a1 + d1 + a2 + x2 + a3 + d3 + a4 + d4 + "}"@);
    assert forall|k: int| 0 <= k < a1.len() implies s[0 + k] == #[trigger] a1[k] by {}
    lemma_sp_lit_here(s, 0, a1);
    let q1 = a1.len() as int;
    assert forall|k: int| 0 <= k < d1.len() implies s[q1 + k] == #[trigger] d1[k] by {}
    reveal_strlit("],\"active_workspace\":");
    assert(s[q1 + d1.len() as int] == a2[0]);
    assert((v.version as u64) as nat == v.version as nat);
    lemma_u64_round_trip(v.version as u64, s, q1);
    let q2 = q1 + d1.len() as int;
    assert forall|k: int| 0 <= k < a2.len() implies s[q2 + k] == #[trigger] a2[k] by {}
    lemma_sp_lit_here(s, q2, a2);
}

/// The workspace list and its closing text parse back.
#[verifier::rlimit(100)]
#[verifier::spinoff_prover]
proof fn state_ws_block_round_trip(v: SpecState, s: Seq<char>)
    requires
        state_wf(v),
        s == emit_state(v),
    ensures
        ({
            let q3 = "{\"version\":"@.len() + spec_digits(v.version as nat).len()
                + ",\"workspaces\":["@.len();
            let x2 = emit_workspace_items(v.workspaces);
            let wsr = match sp_lit(s, q3 as int, "]"@) {
                Some(p) => Some((Seq::<SpecWorkspace>::empty(), p)),
                None => sp_workspace_items(s, q3 as int, s.len() as nat),
            };
            &&& wsr == Some((v.workspaces, (q3 + x2.len() + 1) as int))
            &&& sp_lit(s, (q3 + x2.len() + 1) as int, ",\"active_workspace\":"@) == Some(
                (q3 + x2.len() + "],\"active_workspace\":"@.len()) as int,
            )
        }),
{
    reveal_strlit("{\"version\":");
    reveal_strlit(",\"workspaces\":[");
    reveal_strlit("],\"active_workspace\":");
    reveal_strlit(",\"active_workspace\":");
    reveal_strlit("]");
    reveal_strlit("{\"name\":");
    let a1 = "{\"version\":"@;
    let d1 = spec_digits(v.version as nat);
    let a2 = ",\"workspaces\":["@;
    let x2 = emit_workspace_items(v.workspaces);
    let a3 = "],\"active_workspace\":"@;
    let d3 = spec_digits(v.active_workspace as nat);
    let a4 = ",\"next_id\":"@;
    let d4 = spec_digits(v.next_id as nat);
    assert(s == a1 + d1 + a2 + x2 + a3 + d3 + a4 + d4 + "}"@);
    let pre = a1 + d1 + a2;
    let post = d3 + a4 + d4 + "}"@;
    assert(s =~= pre + x2 + a3 + post);
    let q3 = (a1.len() + d1.len() + a2.len()) as int;
    assert(q3 == pre.len());
    if v.workspaces.len() == 0 {
        assert(x2.len() == 0);
        assert(s[q3 + 0] == a3[0]);
        assert(a3[0] == ']');
        assert(s.subrange(q3, q3 + 1) =~= "]"@) by {
            assert(s.subrange(q3, q3 + 1)[0] == s[q3]);
        }
        assert(sp_lit(s, q3, "]"@) == Some(q3 + 1));
        assert(Seq::<SpecWorkspace>::empty() =~= v.workspaces);
        let q4 = q3 + 1;
        assert forall|k: int|
            0 <= k < ",\"active_workspace\":"@.len() implies s[q4 + k]
                == #[trigger] ",\"active_workspace\":"@[k] by {
            assert(s[q4 + k] == a3[k + 1]);
            assert(a3[k + 1] == ",\"active_workspace\":"@[k]);
        }
        lemma_sp_lit_here(s, q4, ",\"active_workspace\":"@);
    } else {
        state_ws_block_nonempty(v, s);
    }
}

/// The nonempty workspace list and its closing text parse back.
#[verifier::rlimit(100)]
#[verifier::spinoff_prover]
proof fn state_ws_block_nonempty(v: SpecState, s: Seq<char>)
    requires
        state_wf(v),
        s == emit_state(v),
        v.workspaces.len() > 0,
    ensures
        ({
            let q3 = "{\"version\":"@.len() + spec_digits(v.version as nat).len()
                + ",\"workspaces\":["@.len();
            let x2 = emit_workspace_items(v.workspaces);
            &&& sp_lit(s, q3 as int, "]"@) is None
            &&& sp_workspace_items(s, q3 as int, s.len() as nat) == Some(
                (v.workspaces, (q3 + x2.len() + 1) as int),
            )
            &&& sp_lit(s, (q3 + x2.len() + 1) as int, ",\"active_workspace\":"@) == Some(
                (q3 + x2.len() + "],\"active_workspace\":"@.len()) as int,
            )
        }),
{
    reveal_strlit("{\"version\":");
    reveal_strlit(",\"workspaces\":[");
    reveal_strlit("],\"active_workspace\":");
    reveal_strlit(",\"active_workspace\":");
    reveal_strlit("]");
    reveal_strlit("{\"name\":");
    let a1 = "{\"version\":"@;
    let d1 = spec_digits(v.version as nat);
    let a2 = ",\"workspaces\":["@;
    let x2 = emit_workspace_items(v.workspaces);
    let a3 = "],\"active_workspace\":"@;
    let d3 = spec_digits(v.active_workspace as nat);
    let a4 = ",\"next_id\":"@;
    let d4 = spec_digits(v.next_id as nat);
    assert(s == a1 + d1 + a2 + x2 + a3 + d3 + a4 + d4 + "}"@);
    let pre = a1 + d1 + a2;
    let post = d3 + a4 + d4 + "}"@;
    assert(s =~= pre + x2 + a3 + post);
    let q3 = (a1.len() + d1.len() + a2.len()) as int;
    assert(q3 == pre.len());
    lemma_emit_workspace_min(v.workspaces[0]);
    assert(s[q3 + 0] == x2[0]);
    assert(x2[0] == emit_workspace(v.workspaces[0])[0]) by {
        if v.workspaces.len() > 1 {
            assert(x2 == emit_workspace(v.workspaces[0]) + seq![','] + emit_workspace_items(
                v.workspaces.drop_first(),
            ));
        }
    }
    assert(emit_workspace(v.workspaces[0])[0] == '{');
    assert(sp_lit(s, q3, "]"@) is None) by {
        if sp_lit(s, q3, "]"@) is Some {
            assert(s.subrange(q3, q3 + 1)[0] == s[q3]);
        }
    }
    lemma_emit_workspace_items_min(v.workspaces);
    assert forall|k: int| 0 <= k < x2.len() implies s[q3 + k] == #[trigger] x2[k] by {}
    assert(s[q3 + x2.len() as int] == a3[0]);
    assert(a3[0] == ']');
    lemma_workspace_items_round_trip(v.workspaces, s, q3, s.len() as nat);
    let q4 = q3 + x2.len() as int + 1;
    assert forall|k: int|
        0 <= k < ",\"active_workspace\":"@.len() implies s[q4 + k]
            == #[trigger] ",\"active_workspace\":"@[k] by {
        assert(s[q4 + k] == a3[k + 1]);
        assert(a3[k + 1] == ",\"active_workspace\":"@[k]);
    }
    lemma_sp_lit_here(s, q4, ",\"active_workspace\":"@);
}

/// Finish the snapshot round trip from the active-workspace number on.
#[verifier::rlimit(100)]
proof fn finish_state_round_trip(v: SpecState, s: Seq<char>, q5: int)
    requires
        s == emit_state(v),
        q5 == "{\"version\":"@.len() + spec_digits(v.version as nat).len()
            + ",\"workspaces\":["@.len() + emit_workspace_items(v.workspaces).len()
            + "],\"active_workspace\":"@.len(),
    ensures
        ({
            let d3 = spec_digits(v.active_workspace as nat);
            let a4 = ",\"next_id\":"@;
            let d4 = spec_digits(v.next_id as nat);
            &&& sp_usize(s, q5) == Some((v.active_workspace, q5 + d3.len()))
            &&& sp_lit(s, q5 + d3.len(), a4) == Some(q5 + d3.len() + a4.len())
            &&& sp_u64(s, q5 + d3.len() + a4.len()) == Some(
                (v.next_id, q5 + d3.len() + a4.len() + d4.len()),
            )
            &&& sp_lit(s, q5 + d3.len() + a4.len() + d4.len(), "}"@) == Some(s.len() as int)
        }),
{
    reveal_strlit("{\"version\":");
    reveal_strlit(",\"workspaces\":[");
    reveal_strlit("],\"active_workspace\":");
    reveal_strlit(",\"next_id\":");
    reveal_strlit("}");
    let a1 = "{\"version\":"@;
    let d1 = spec_digits(v.version as nat);
    let a2 = ",\"workspaces\":["@;
    let x2 = emit_workspace_items(v.workspaces);
    let a3 = "],\"active_workspace\":"@;
    let d3 = spec_digits(v.active_workspace as nat);
    let a4 = ",\"next_id\":"@;
    let d4 = spec_digits(v.next_id as nat);
    assert(s == a1 + d1 + a2 + x2 + a3 + d3 + a4 + d4 + "}"@);
    assert forall|k: int| 0 <= k < d3.len() implies s[q5 + k] == #[trigger] d3[k] by {}
    assert(s[q5 + d3.len() as int] == a4[0]);
    assert((v.active_workspace as u64) as nat == v.active_workspace as nat);
    lemma_u64_round_trip(v.active_workspace as u64, s, q5);
    let q6 = q5 + d3.len() as int;
    assert forall|k: int| 0 <= k < a4.len() implies s[q6 + k] == #[trigger] a4[k] by {}
    lemma_sp_lit_here(s, q6, a4);
    let q7 = q6 + a4.len() as int;
    assert forall|k: int| 0 <= k < d4.len() implies s[q7 + k] == #[trigger] d4[k] by {}
    assert(s[q7 + d4.len() as int] == '}');
    lemma_u64_round_trip(v.next_id, s, q7);
    let q8 = q7 + d4.len() as int;
    lemma_sp_lit_here(s, q8, "}"@);
    assert(q8 + 1 == s.len());
}


/// Parse an optional string at `j`.
fn parse_opt_string(s: &Vec<char>, j: usize) -> (r: Option<(Option<String>, usize)>)
    ensures
        match r {
            Some((v, j2)) => sp_opt_string(s@, j as int) == Some((sopt(v), j2 as int)) && j2
                <= s@.len(),
            None => sp_opt_string(s@, j as int) is None,
        },
{
    let nul = chars_of("null");
    proof {
        reveal_strlit("null");
    }
    match eat_lit(s, j, &nul) {
        Some(j2) => Some((None, j2)),
        None => match parse_json_string(s, j) {
            Some((t, j2)) => Some((Some(string_of(&t)), j2)),
            None => None,
        },
    }
}

/// Parse a key-prefixed string field.
fn parse_str_field(s: &Vec<char>, j: usize, keylit: &Vec<char>) -> (r: Option<(String, usize)>)
    ensures
        match r {
            Some((v, j2)) => sp_str_field(s@, j as int, keylit@) == Some((v@, j2 as int)) && j2
                <= s@.len(),
            None => sp_str_field(s@, j as int, keylit@) is None,
        },
{
    match eat_lit(s, j, keylit) {
        None => None,
        Some(j1) => match parse_json_string(s, j1) {
            None => None,
            Some((v, j2)) => Some((string_of(&v), j2)),
        },
    }
}

/// Parse a key-prefixed optional-string field.
fn parse_opt_field(s: &Vec<char>, j: usize, keylit: &Vec<char>) -> (r: Option<
    (Option<String>, usize),
>)
    ensures
        match r {
            Some((v, j2)) => sp_opt_field(s@, j as int, keylit@) == Some((sopt(v), j2 as int))
                && j2 <= s@.len(),
            None => sp_opt_field(s@, j as int, keylit@) is None,
        },
{
    match eat_lit(s, j, keylit) {
        None => None,
        Some(j1) => parse_opt_string(s, j1),
    }
}

/// Parse a key-prefixed number field.
fn parse_u64_field(s: &Vec<char>, j: usize, keylit: &Vec<char>) -> (r: Option<(u64, usize)>)
    ensures
        match r {
            Some((v, j2)) => sp_u64_field(s@, j as int, keylit@) == Some((v, j2 as int)) && j2
                <= s@.len(),
            None => sp_u64_field(s@, j as int, keylit@) is None,
        },
{
    match eat_lit(s, j, keylit) {
        None => None,
        Some(j1) => parse_json_u64(s, j1),
    }
}

/// Parse one persisted terminal object.
fn parse_terminal(s: &Vec<char>, i: usize) -> (r: Option<(PersistedTerminal, usize)>)
    ensures
        match r {
            Some((t, j)) => sp_terminal(s@, i as int) == Some((t@, j as int)) && j <= s@.len()
                && t.pty_fd >= 0,
            None => sp_terminal(s@, i as int) is None,
        },
{
    proof {
        reveal_strlit("{\"internal_id\":");
        reveal_strlit(",\"external_id\":");
        reveal_strlit(",\"pty_fd\":");
        reveal_strlit(",\"pty_pid\":");
        reveal_strlit(",\"width_permille\":");
        reveal_strlit(",\"title\":");
        reveal_strlit(",\"custom_title\":");
        reveal_strlit(",\"description\":");
        reveal_strlit(",\"cli_description\":");
        reveal_strlit(",\"icon\":");
        reveal_strlit(",\"cwd\":");
        reveal_strlit("}");
    }
    let k1 = chars_of("{\"internal_id\":");
    let (internal_id, p1) = match parse_u64_field(s, i, &k1) {
        Some(x) => x,
        None => {
            return None;
        },
    };
    let k2 = chars_of(",\"external_id\":");
    let (external_id, p2) = match parse_str_field(s, p1, &k2) {
        Some(x) => x,
        None => {
            return None;
        },
    };
    let k3 = chars_of(",\"pty_fd\":");
    let p3a = match eat_lit(s, p2, &k3) {
        Some(x) => x,
        None => {
            return None;
        },
    };
    let (fd64, p3) = match parse_json_u64(s, p3a) {
        Some(x) => x,
        None => {
            return None;
        },
    };
    if fd64 > 0x7fffffff {
        return None;
    }
    let pty_fd = fd64 as i32;
    let k4 = chars_of(",\"pty_pid\":");
    let p4a = match eat_lit(s, p3, &k4) {
        Some(x) => x,
        None => {
            return None;
        },
    };
    let (pid64, p4) = match parse_json_u64(s, p4a) {
        Some(x) => x,
        None => {
            return None;
        },
    };
    if pid64 > 0xffffffff {
        return None;
    }
    let pty_pid = pid64 as u32;
    let k5 = chars_of(",\"width_permille\":");
    let p5a = match eat_lit(s, p4, &k5) {
        Some(x) => x,
        None => {
            return None;
        },
    };
    let (w64, p5) = match parse_json_u64(s, p5a) {
        Some(x) => x,
        None => {
            return None;
        },
    };
    if w64 > 0xffffffff {
        return None;
    }
    let width_permille = w64 as u32;
    let k6 = chars_of(",\"title\":");
    let (title, p6) = match parse_str_field(s, p5, &k6) {
        Some(x) => x,
        None => {
            return None;
        },
    };
    let k7 = chars_of(",\"custom_title\":");
    let (custom_title, p7) = match parse_opt_field(s, p6, &k7) {
        Some(x) => x,
        None => {
            return None;
        },
    };
    let k8 = chars_of(",\"description\":");
    let (description, p8) = match parse_str_field(s, p7, &k8) {
        Some(x) => x,
        None => {
            return None;
        },
    };
    let k9 = chars_of(",\"cli_description\":");
    let (cli_description, p9) = match parse_opt_field(s, p8, &k9) {
        Some(x) => x,
        None => {
            return None;
        },
    };
    let k10 = chars_of(",\"icon\":");
    let (icon, p10) = match parse_opt_field(s, p9, &k10) {
        Some(x) => x,
        None => {
            return None;
        },
    };
    let k11 = chars_of(",\"cwd\":");
    let (cwd, p11) = match parse_opt_field(s, p10, &k11) {
        Some(x) => x,
        None => {
            return None;
        },
    };
    let k12 = chars_of("}");
    let p12 = match eat_lit(s, p11, &k12) {
        Some(x) => x,
        None => {
            return None;
        },
    };
    Some(
        (
            PersistedTerminal {
                internal_id,
                external_id,
                pty_fd,
                pty_pid,
                width_permille,
                title,
                custom_title,
                description,
                cli_description,
                icon,
                cwd,
            },
            p12,
        ),
    )
}

/// Parse the items of a terminal list, through the closing bracket.
fn parse_terminal_items(s: &Vec<char>, i: usize, fuel: usize) -> (r: Option<
    (Vec<PersistedTerminal>, usize),
>)
    ensures
        match r {
            Some((v, j)) => sp_terminal_items(s@, i as int, fuel as nat) == Some(
                (terms_view(v@), j as int),
            ) && j <= s@.len(),
            None => sp_terminal_items(s@, i as int, fuel as nat) is None,
        },
    decreases fuel,
{
    if fuel == 0 {
        return None;
    }
    let (t, j) = match parse_terminal(s, i) {
        Some(x) => x,
        None => {
            return None;
        },
    };
    let rb = chars_of("]");
    let cm = chars_of(",");
    proof {
        reveal_strlit("]");
        reveal_strlit(",");
    }
    match eat_lit(s, j, &rb) {
        Some(j2) => {
            let mut v: Vec<PersistedTerminal> = Vec::new();
            v.push(t);
            proof {
                assert(terms_view(v@) =~= seq![v@[0]@]);
            }
            Some((v, j2))
        },
        None => {
            let j2 = match eat_lit(s, j, &cm) {
                Some(x) => x,
                None => {
                    return None;
                },
            };
            match parse_terminal_items(s, j2, fuel - 1) {
                None => None,
                Some((rest, j3)) => {
                    let mut v: Vec<PersistedTerminal> = Vec::new();
                    v.push(t);
                    let mut rest = rest;
                    let ghost restv = terms_view(rest@);
                    v.append(&mut rest);
                    proof {
                        assert(terms_view(v@) =~= seq![v@[0]@] + restv);
                    }
                    Some((v, j3))
                },
            }
        },
    }
}

/// Parse one persisted workspace object.
fn parse_workspace(s: &Vec<char>, i: usize) -> (r: Option<(PersistedWorkspace, usize)>)
    ensures
        match r {
            Some((w, j)) => sp_workspace(s@, i as int) == Some((w@, j as int)) && j <= s@.len(),
            None => sp_workspace(s@, i as int) is None,
        },
{
    proof {
        reveal_strlit("{\"name\":");
        reveal_strlit(",\"panel_order\":");
        reveal_strlit(",\"focused_index\":");
        reveal_strlit(",\"terminals\":[");
        reveal_strlit("]}");
        reveal_strlit("}");
        reveal_strlit("[");
        reveal_strlit("]");
        reveal_strlit(",");
    }
    let k1 = chars_of("{\"name\":");
    let (name, p1) = match parse_str_field(s, i, &k1) {
        Some(x) => x,
        None => {
            return None;
        },
    };
    let k2 = chars_of(",\"panel_order\":");
    let p2a = match eat_lit(s, p1, &k2) {
        Some(x) => x,
        None => {
            return None;
        },
    };
    let lb = chars_of("[");
    let rb = chars_of("]");
    let cm = chars_of(",");
    let p2b = match eat_lit(s, p2a, &lb) {
        Some(x) => x,
        None => {
            return None;
        },
    };
    let (panel_order, p2) = match eat_lit(s, p2b, &rb) {
        Some(p) => {
            let v: Vec<u64> = Vec::new();
            proof {
                assert(v@ =~= Seq::<u64>::empty());
            }
            (v, p)
        },
        None => {
            match parse_u64_items(s, p2b, s.len()) {
                Some(x) => x,
                None => {
                    return None;
                },
            }
        },
    };
    let k3 = chars_of(",\"focused_index\":");
    let p3a = match eat_lit(s, p2, &k3) {
        Some(x) => x,
        None => {
            return None;
        },
    };
    let (f64v, p3) = match parse_json_u64(s, p3a) {
        Some(x) => x,
        None => {
            return None;
        },
    };
    if f64v > usize::MAX as u64 {
        return None;
    }
    let focused_index = f64v as usize;
    let k4 = chars_of(",\"terminals\":[");
    let p4 = match eat_lit(s, p3, &k4) {
        Some(x) => x,
        None => {
            return None;
        },
    };
    let k5 = chars_of("]}");
    match eat_lit(s, p4, &k5) {
        Some(p5) => {
            let terminals: Vec<PersistedTerminal> = Vec::new();
            proof {
                assert(terms_view(terminals@) =~= Seq::<SpecTerminal>::empty());
            }
            Some((PersistedWorkspace { name, panel_order, focused_index, terminals }, p5))
        },
        None => {
            let (terminals, p5) = match parse_terminal_items(s, p4, s.len()) {
                Some(x) => x,
                None => {
                    return None;
                },
            };
            let k6 = chars_of("}");
            let p6 = match eat_lit(s, p5, &k6) {
                Some(x) => x,
                None => {
                    return None;
                },
            };
            Some((PersistedWorkspace { name, panel_order, focused_index, terminals }, p6))
        },
    }
}

/// Parse the items of a number list, through the closing bracket.
fn parse_u64_items(s: &Vec<char>, i: usize, fuel: usize) -> (r: Option<(Vec<u64>, usize)>)
    requires
        i <= s@.len(),
    ensures
        match r {
            Some((v, j)) => sp_u64_items(s@, i as int, fuel as nat) == Some((v@, j as int)) && j
                <= s@.len(),
            None => sp_u64_items(s@, i as int, fuel as nat) is None,
        },
    decreases fuel,
{
    if fuel == 0 {
        return None;
    }
    let (n, j) = match parse_json_u64(s, i) {
        Some(x) => x,
        None => {
            return None;
        },
    };
    let rb = chars_of("]");
    let cm = chars_of(",");
    proof {
        reveal_strlit("]");
        reveal_strlit(",");
    }
    match eat_lit(s, j, &rb) {
        Some(j2) => {
            let mut v: Vec<u64> = Vec::new();
            v.push(n);
            proof {
                assert(v@ =~= seq![n]);
            }
            Some((v, j2))
        },
        None => {
            let j2 = match eat_lit(s, j, &cm) {
                Some(x) => x,
                None => {
                    return None;
                },
            };
            match parse_u64_items(s, j2, fuel - 1) {
                None => None,
                Some((rest, j3)) => {
                    let mut v: Vec<u64> = Vec::new();
                    v.push(n);
                    let mut rest = rest;
                    let ghost restv = rest@;
                    v.append(&mut rest);
                    proof {
                        assert(v@ =~= seq![n] + restv);
                    }
                    Some((v, j3))
                },
            }
        },
    }
}

/// Parse the items of a workspace list, through the closing bracket.
fn parse_workspace_items(s: &Vec<char>, i: usize, fuel: usize) -> (r: Option<
    (Vec<PersistedWorkspace>, usize),
>)
    ensures
        match r {
            Some((v, j)) => sp_workspace_items(s@, i as int, fuel as nat) == Some(
                (wss_view(v@), j as int),
            ) && j <= s@.len(),
            None => sp_workspace_items(s@, i as int, fuel as nat) is None,
        },
    decreases fuel,
{
    if fuel == 0 {
        return None;
    }
    let (w, j) = match parse_workspace(s, i) {
        Some(x) => x,
        None => {
            return None;
        },
    };
    let rb = chars_of("]");
    let cm = chars_of(",");
    proof {
        reveal_strlit("]");
        reveal_strlit(",");
    }
    match eat_lit(s, j, &rb) {
        Some(j2) => {
            let mut v: Vec<PersistedWorkspace> = Vec::new();
            v.push(w);
            proof {
                assert(wss_view(v@) =~= seq![v@[0]@]);
            }
            Some((v, j2))
        },
        None => {
            let j2 = match eat_lit(s, j, &cm) {
                Some(x) => x,
                None => {
                    return None;
                },
            };
            match parse_workspace_items(s, j2, fuel - 1) {
                None => None,
                Some((rest, j3)) => {
                    let mut v: Vec<PersistedWorkspace> = Vec::new();
                    v.push(w);
                    let mut rest = rest;
                    let ghost restv = wss_view(rest@);
                    v.append(&mut rest);
                    proof {
                        assert(wss_view(v@) =~= seq![v@[0]@] + restv);
                    }
                    Some((v, j3))
                },
            }
        },
    }
}

/// Parse the whole snapshot document.
pub fn parse_state(line: &str) -> (r: Option<PersistedState>)
    ensures
        match r {
            Some(st) => sp_state(line@) == Some(st@),
            None => sp_state(line@) is None,
        },
{
    proof {
        reveal_strlit("{\"version\":");
        reveal_strlit(",\"workspaces\":[");
        reveal_strlit("],\"active_workspace\":");
        reveal_strlit(",\"active_workspace\":");
        reveal_strlit(",\"next_id\":");
        reveal_strlit("}");
        reveal_strlit("]");
    }
    let s = chars_of(line);
    let k1 = chars_of("{\"version\":");
    let (v64, p1) = match parse_u64_field(&s, 0, &k1) {
        Some(x) => x,
        None => {
            return None;
        },
    };
    if v64 > 0xffffffff {
        return None;
    }
    let version = v64 as u32;
    let k2 = chars_of(",\"workspaces\":[");
    let p2 = match eat_lit(&s, p1, &k2) {
        Some(x) => x,
        None => {
            return None;
        },
    };
    let rb = chars_of("]");
    let (workspaces, p3) = match eat_lit(&s, p2, &rb) {
        Some(p) => {
            let v: Vec<PersistedWorkspace> = Vec::new();
            proof {
                assert(wss_view(v@) =~= Seq::<SpecWorkspace>::empty());
            }
            (v, p)
        },
        None => {
            match parse_workspace_items(&s, p2, s.len()) {
                Some(x) => x,
                None => {
                    return None;
                },
            }
        },
    };
    let k3 = chars_of(",\"active_workspace\":");
    let p4a = match eat_lit(&s, p3, &k3) {
        Some(x) => x,
        None => {
            return None;
        },
    };
    let (a64, p4) = match parse_json_u64(&s, p4a) {
        Some(x) => x,
        None => {
            return None;
        },
    };
    if a64 > usize::MAX as u64 {
        return None;
    }
    let active_workspace = a64 as usize;
    let k4 = chars_of(",\"next_id\":");
    let p5a = match eat_lit(&s, p4, &k4) {
        Some(x) => x,
        None => {
            return None;
        },
    };
    let (next_id, p5) = match parse_json_u64(&s, p5a) {
        Some(x) => x,
        None => {
            return None;
        },
    };
    let k5 = chars_of("}");
    match eat_lit(&s, p5, &k5) {
        Some(p6) if p6 == s.len() => Some(
            PersistedState { version, workspaces, active_workspace, next_id },
        ),
        _ => None,
    }
}

/// Read a snapshot back: parse the document and hold its version against
/// the compiled constant. A version mismatch rejects the whole snapshot,
/// never a part of it; this function reads its input and touches nothing
/// else, so a rejected snapshot changes no live session.
pub fn decode_state(line: &str) -> (r: Result<PersistedState, PersistError>)
    ensures
        match r {
            Ok(st) => sp_state(line@) == Some(st@) && st.version == STATE_VERSION,
            Err(e) => match e {
                PersistError::Parse => sp_state(line@) is None,
                PersistError::VersionMismatch { expected, found } => {
                    &&& expected == STATE_VERSION
                    &&& (match sp_state(line@) {
                        Some(st) => st.version == found && found != STATE_VERSION,
                        None => false,
                    })
                },
                _ => false,
            },
        },
{
    match parse_state(line) {
        None => Err(PersistError::Parse),
        Some(st) => {
            if st.version != STATE_VERSION {
                Err(PersistError::VersionMismatch { expected: STATE_VERSION, found: st.version })
            } else {
                Ok(st)
            }
        },
    }
}


} // verus!
