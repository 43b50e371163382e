//! The session registry owned by the single state-owning thread.
//!
//! All mutation of session state happens here, driven either by local UI
//! commands or by decoded control-socket requests. No lock guards this
//! state: every other thread hands requests over a channel and the owner
//! applies them one at a time.

use vstd::prelude::*;

verus! {

use crate::protocol::Request;
use crate::protocol::Response;
use crate::snapshot::PersistedState;
use crate::snapshot::PersistedTerminal;
use crate::snapshot::PersistedWorkspace;
use crate::snapshot::STATE_VERSION;
use crate::snapshot::SpecTerminal;
use crate::snapshot::sopt;
use crate::strutil::chars_of;
use crate::strutil::str_eq;
use crate::strutil::string_of;
use vstd::pervasive::VecAdditionalExecFns;
use vstd::string::StringExecFns;

/// Metadata of one terminal panel, keyed by its internal id; the PTY
/// descriptor and process id it belongs to are carried as plain values.
pub struct PanelState {
    /// Internal id, unique across the store.
    pub internal_id: u64,
    /// External id (the `term-` string used by control clients).
    pub external_id: String,
    /// Terminal title, from shell escape sequences.
    pub title: String,
    /// Custom title set over the control socket; overrides `title`.
    pub custom_title: Option<String>,
    /// Description set in the in-app dialog.
    pub description: String,
    /// Description set over the control socket.
    pub cli_description: Option<String>,
    /// Icon set over the control socket.
    pub icon: Option<String>,
    /// Whether a notification is pending on this terminal.
    pub notified: bool,
    /// Panel width as a fraction of the viewport, in thousandths.
    pub width_permille: u32,
    /// Working directory reported by the shell, if any.
    pub cwd: Option<String>,
    /// The PTY master descriptor backing this panel.
    pub pty_fd: i32,
    /// The child process id attached to the PTY.
    pub pty_pid: u32,
}

impl Clone for PanelState {
    /// An exact copy.
    fn clone(&self) -> (r: Self)
        ensures
            r == *self,
    {
        PanelState {
            internal_id: self.internal_id,
            external_id: self.external_id.clone(),
            title: self.title.clone(),
            custom_title: match &self.custom_title {
                Some(t) => Some(t.clone()),
                None => None,
            },
            description: self.description.clone(),
            cli_description: match &self.cli_description {
                Some(t) => Some(t.clone()),
                None => None,
            },
            icon: match &self.icon {
                Some(t) => Some(t.clone()),
                None => None,
            },
            notified: self.notified,
            width_permille: self.width_permille,
            cwd: match &self.cwd {
                Some(t) => Some(t.clone()),
                None => None,
            },
            pty_fd: self.pty_fd,
            pty_pid: self.pty_pid,
        }
    }
}

/// A panel's metadata as mathematical values.
pub struct SpecPanel {
    pub internal_id: u64,
    pub external_id: Seq<char>,
    pub title: Seq<char>,
    pub custom_title: Option<Seq<char>>,
    pub description: Seq<char>,
    pub cli_description: Option<Seq<char>>,
    pub icon: Option<Seq<char>>,
    pub notified: bool,
    pub width_permille: u32,
    pub cwd: Option<Seq<char>>,
    pub pty_fd: i32,
    pub pty_pid: u32,
}

/// The view of an optional owned string.
pub open spec fn opt_view(o: Option<String>) -> Option<Seq<char>> {
    match o {
        Some(s) => Some(s@),
        None => None,
    }
}

impl View for PanelState {
    type V = SpecPanel;

    open spec fn view(&self) -> SpecPanel {
        SpecPanel {
            internal_id: self.internal_id,
            external_id: self.external_id@,
            title: self.title@,
            custom_title: opt_view(self.custom_title),
            description: self.description@,
            cli_description: opt_view(self.cli_description),
            icon: opt_view(self.icon),
            notified: self.notified,
            width_permille: self.width_permille,
            cwd: opt_view(self.cwd),
            pty_fd: self.pty_fd,
            pty_pid: self.pty_pid,
        }
    }
}

/// A panel's display title: the custom title when set, else the natural one.
impl PanelState {
    /// The title shown for this panel.
    pub fn display_title(&self) -> (r: &String)
        ensures
            r@ == match self.custom_title {
                Some(t) => t@,
                None => self.title@,
            },
    {
        match &self.custom_title {
            Some(t) => t,
            None => &self.title,
        }
    }
}

/// A workspace: a named, ordered strip of panels with one focused slot.
pub struct Workspace {
    /// Workspace name.
    pub name: String,
    /// Internal panel ids, left to right.
    pub panel_order: Vec<u64>,
    /// Index of the focused panel within `panel_order`.
    pub focused_index: usize,
}

impl Workspace {
    /// A well-formed workspace keeps its focus inside the strip.
    pub open spec fn wf(self) -> bool {
        if self.panel_order@.len() == 0 {
            self.focused_index == 0
        } else {
            self.focused_index < self.panel_order@.len()
        }
    }

    /// An empty workspace with the given name.
    pub fn new(name: String) -> (r: Workspace)
        ensures
            r.name@ == name@,
            r.panel_order@.len() == 0,
            r.focused_index == 0,
            r.wf(),
    {
        Workspace { name, panel_order: Vec::new(), focused_index: 0 }
    }
}

/// First panel index whose external id is `id`, scanning from `i`.
pub open spec fn spec_find_panel(panels: Seq<PanelState>, id: Seq<char>, i: int) -> Option<int>
    decreases panels.len() - i,
{
    if i < 0 || i >= panels.len() {
        None
    } else if panels[i].external_id@ == id {
        Some(i)
    } else {
        spec_find_panel(panels, id, i + 1)
    }
}

/// First workspace index whose strip contains the id `x`, scanning from `w`.
pub open spec fn spec_find_ws_with(ws: Seq<Workspace>, x: u64, w: int) -> Option<int>
    decreases ws.len() - w,
{
    if w < 0 || w >= ws.len() {
        None
    } else if ws[w].panel_order@.contains(x) {
        Some(w)
    } else {
        spec_find_ws_with(ws, x, w + 1)
    }
}

/// First workspace index with the name `n`, scanning from `w`.
pub open spec fn spec_find_ws_named(ws: Seq<Workspace>, n: Seq<char>, w: int) -> Option<int>
    decreases ws.len() - w,
{
    if w < 0 || w >= ws.len() {
        None
    } else if ws[w].name@ == n {
        Some(w)
    } else {
        spec_find_ws_named(ws, n, w + 1)
    }
}

/// The text of the reply sent when a terminal id is unknown.
pub open spec fn not_found_text(id: Seq<char>) -> Seq<char> {
    "Terminal not found: "@ + id
}

/// A workspace survives cleanup if it still shows a panel or is `default`.
pub open spec fn keep_ws(w: Workspace) -> bool {
    w.panel_order@.len() > 0 || w.name@ == "default"@
}

/// No panel id appears twice across all workspace strips.
pub open spec fn unique_order_ids(ws: Seq<Workspace>) -> bool {
    forall|a: int, b: int, i: int, j: int|
        0 <= a < ws.len() && 0 <= b < ws.len() && 0 <= i < ws[a].panel_order@.len() && 0 <= j
            < ws[b].panel_order@.len() && (a != b || i != j) ==> #[trigger] ws[a].panel_order@[i]
            != #[trigger] ws[b].panel_order@[j]
}

/// Every id on a strip is below the id counter.
pub open spec fn order_ids_below(ws: Seq<Workspace>, bound: u64) -> bool {
    forall|a: int, i: int|
        0 <= a < ws.len() && 0 <= i < ws[a].panel_order@.len() ==> #[trigger] ws[a].panel_order@[i]
            < bound
}

/// The whole session state owned by the owner thread.
pub struct SessionStore {
    /// All panels, in creation order.
    pub panels: Vec<PanelState>,
    /// All workspaces; never empty.
    pub workspaces: Vec<Workspace>,
    /// Index of the active workspace.
    pub active_workspace: usize,
    /// Next internal panel id to hand out.
    pub next_id: u64,
}

impl SessionStore {
    /// Well-formedness: at least one workspace, indices in range, each id
    /// on at most one strip, and all strip ids below the id counter.
    pub open spec fn wf(self) -> bool {
        &&& self.workspaces@.len() >= 1
        &&& self.active_workspace < self.workspaces@.len()
        &&& forall|w: int|
            0 <= w < self.workspaces@.len() ==> (#[trigger] self.workspaces@[w]).wf()
        &&& unique_order_ids(self.workspaces@)
        &&& order_ids_below(self.workspaces@, self.next_id)
        &&& forall|p: int|
            0 <= p < self.panels@.len() ==> (#[trigger] self.panels@[p]).internal_id < self.next_id
    }

    /// A fresh store with one empty workspace named `default`.
    pub fn new() -> (r: SessionStore)
        ensures
            r.wf(),
            r.panels@.len() == 0,
            r.workspaces@.len() == 1,
            r.workspaces@[0].name@ == "default"@,
            r.workspaces@[0].panel_order@.len() == 0,
            r.active_workspace == 0,
            r.next_id == 0,
    {
        let mut workspaces: Vec<Workspace> = Vec::new();
        workspaces.push(Workspace::new(String::from_str("default")));
        SessionStore { panels: Vec::new(), workspaces, active_workspace: 0, next_id: 0 }
    }


    /// Find the first workspace whose strip contains `x`.
    pub fn find_ws_with(&self, x: u64) -> (r: Option<usize>)
        ensures
            match r {
                Some(w) => spec_find_ws_with(self.workspaces@, x, 0) == Some(w as int) && w
                    < self.workspaces@.len(),
                None => spec_find_ws_with(self.workspaces@, x, 0) is None,
            },
    {
        let mut w: usize = 0;
        while w < self.workspaces.len()
            invariant
                w <= self.workspaces@.len(),
                spec_find_ws_with(self.workspaces@, x, 0) == spec_find_ws_with(
                    self.workspaces@,
                    x,
                    w as int,
                ),
            decreases self.workspaces@.len() - w,
        {
            if order_contains(&self.workspaces[w].panel_order, x) {
                return Some(w);
            }
            w = w + 1;
        }
        None
    }

    /// Find the first workspace with the given name.
    pub fn find_ws_named(&self, n: &str) -> (r: Option<usize>)
        ensures
            match r {
                Some(w) => spec_find_ws_named(self.workspaces@, n@, 0) == Some(w as int) && w
                    < self.workspaces@.len(),
                None => spec_find_ws_named(self.workspaces@, n@, 0) is None,
            },
    {
        let mut w: usize = 0;
        while w < self.workspaces.len()
            invariant
                w <= self.workspaces@.len(),
                spec_find_ws_named(self.workspaces@, n@, 0) == spec_find_ws_named(
                    self.workspaces@,
                    n@,
                    w as int,
                ),
            decreases self.workspaces@.len() - w,
        {
            if str_eq(self.workspaces[w].name.as_str(), n) {
                return Some(w);
            }
            w = w + 1;
        }
        None
    }

    /// Register a freshly spawned panel: assign it the next internal id,
    /// give it default display fields, and show it just after the focused
    /// slot of the active workspace (or alone if the strip was empty).
    pub fn create_panel(
        &mut self,
        external_id: String,
        width_permille: u32,
        pty_fd: i32,
        pty_pid: u32,
        cwd: Option<String>,
    ) -> (id: u64)
        requires
            old(self).wf(),
            old(self).next_id < u64::MAX,
        ensures
            final(self).wf(),
            id == old(self).next_id,
            final(self).next_id == old(self).next_id + 1,
            final(self).panels@.len() == old(self).panels@.len() + 1,
            forall|j: int|
                0 <= j < old(self).panels@.len() ==> final(self).panels@[j] == old(self).panels@[j],
            final(self).panels@.last()@ == (SpecPanel {
                internal_id: old(self).next_id,
                external_id: external_id@,
                title: "Terminal"@,
                custom_title: None,
                description: Seq::empty(),
                cli_description: None,
                icon: None,
                notified: false,
                width_permille: width_permille,
                cwd: opt_view(cwd),
                pty_fd: pty_fd,
                pty_pid: pty_pid,
            }),
            final(self).active_workspace == old(self).active_workspace,
            final(self).workspaces@.len() == old(self).workspaces@.len(),
            forall|w: int|
                0 <= w < old(self).workspaces@.len() && w != old(self).active_workspace
                    ==> final(self).workspaces@[w] == old(self).workspaces@[w],
            ({
                let aw = old(self).active_workspace as int;
                let oldws = old(self).workspaces@[aw];
                let newws = final(self).workspaces@[aw];
                &&& newws.name@ == oldws.name@
                &&& newws.focused_index == oldws.focused_index
                &&& newws.panel_order@ == if oldws.panel_order@.len() == 0 {
                    seq![id]
                } else {
                    oldws.panel_order@.insert(oldws.focused_index + 1, id)
                }
            }),
    {
        let id = self.next_id;
        self.next_id = self.next_id + 1;
        let panel = PanelState {
            internal_id: id,
            external_id,
            title: String::from_str("Terminal"),
            custom_title: None,
            description: String::new(),
            cli_description: None,
            icon: None,
            notified: false,
            width_permille,
            cwd,
            pty_fd,
            pty_pid,
        };
        self.panels.push(panel);
        let aw = self.active_workspace;
        let mut ws = replace_ws(&mut self.workspaces, aw, Workspace::new(String::new()));
        if ws.panel_order.len() == 0 {
            ws.panel_order.push(id);
            proof {
                assert(ws.panel_order@ =~= seq![id]);
            }
        } else {
            let at = ws.focused_index + 1;
            ws.panel_order.insert(at, id);
        }
        let ghost new_order = ws.panel_order@;
        let ghost pos = if old(self).workspaces@[aw as int].panel_order@.len() == 0 {
            0int
        } else {
            old(self).workspaces@[aw as int].focused_index + 1
        };
        let _ = replace_ws(&mut self.workspaces, aw, ws);
        proof {
            let wsv = self.workspaces@;
            let oldv = old(self).workspaces@;
            assert(new_order =~= oldv[aw as int].panel_order@.insert(pos, id));
            assert forall|w: int, p: int|
                0 <= w < oldv.len() && 0 <= p < oldv[w].panel_order@.len() implies #[trigger] oldv[w].panel_order@[p] != id by {
                assert(oldv[w].panel_order@[p] < id);
            }
            assert forall|a: int, b: int, i: int, j: int|
                0 <= a < wsv.len() && 0 <= b < wsv.len() && 0 <= i < wsv[a].panel_order@.len() && 0
                    <= j < wsv[b].panel_order@.len() && (a != b || i != j) implies #[trigger] wsv[a].panel_order@[i] != #[trigger] wsv[b].panel_order@[j] by {
                lemma_insert_unique(oldv, wsv, aw as int, pos, id, a, b, i, j);
            }
            assert forall|a: int, i: int|
                0 <= a < wsv.len() && 0 <= i < wsv[a].panel_order@.len() implies #[trigger] wsv[a].panel_order@[i] < self.next_id by {
                lemma_insert_below(oldv, wsv, aw as int, pos, id, self.next_id, a, i);
            }
            assert(oldv[aw as int].panel_order@.len() == 0 ==> new_order =~= seq![id]);
        }
        id
    }


    /// Remove the slot at `pos` from workspace `w`'s strip, pulling the
    /// focus back inside the strip if needed.
    fn remove_slot(&mut self, w: usize, pos: usize)
        requires
            old(self).wf(),
            w < old(self).workspaces@.len(),
            pos < old(self).workspaces@[w as int].panel_order@.len(),
        ensures
            final(self).wf(),
            final(self).panels == old(self).panels,
            final(self).next_id == old(self).next_id,
            final(self).active_workspace == old(self).active_workspace,
            final(self).workspaces@.len() == old(self).workspaces@.len(),
            forall|x: int|
                0 <= x < old(self).workspaces@.len() && x != w ==> final(self).workspaces@[x]
                    == old(self).workspaces@[x],
            final(self).workspaces@[w as int].name@ == old(self).workspaces@[w as int].name@,
            final(self).workspaces@[w as int].panel_order@ == old(self).workspaces@[w as int].panel_order@.remove(pos as int),
            forall|x: int, p: int|
                0 <= x < final(self).workspaces@.len() && 0 <= p < final(self).workspaces@[x].panel_order@.len() ==> #[trigger] final(self).workspaces@[x].panel_order@[p] != old(self).workspaces@[w as int].panel_order@[pos as int],
    {
        let mut ws = replace_ws(&mut self.workspaces, w, Workspace::new(String::new()));
        let ghost oldord = ws.panel_order@;
        ws.panel_order.remove(pos);
        if ws.panel_order.len() == 0 {
            ws.focused_index = 0;
        } else if ws.focused_index >= ws.panel_order.len() {
            ws.focused_index = ws.panel_order.len() - 1;
        }
        let _ = replace_ws(&mut self.workspaces, w, ws);
        proof {
            let oldv = old(self).workspaces@;
            let wsv = self.workspaces@;
            assert(wsv[w as int].panel_order@ == oldord.remove(pos as int));
            assert forall|a: int, b: int, i: int, j: int|
                0 <= a < wsv.len() && 0 <= b < wsv.len() && 0 <= i < wsv[a].panel_order@.len() && 0
                    <= j < wsv[b].panel_order@.len() && (a != b || i != j) implies #[trigger] wsv[a].panel_order@[i] != #[trigger] wsv[b].panel_order@[j] by {
                lemma_strip_remove_unique(oldv, wsv, w as int, pos as int, a, b, i, j);
            }
            lemma_strip_remove_below(oldv, wsv, w as int, pos as int, self.next_id);
            lemma_strip_remove_gone(oldv, wsv, w as int, pos as int);
        }
    }

    /// Drop every empty workspace except `default`; if nothing remains, a
    /// single fresh `default` workspace is created. When the previously
    /// active workspace survives, it stays active.
    pub fn cleanup_empty_workspaces(&mut self)
        requires
            old(self).wf(),
        ensures
            final(self).wf(),
            final(self).panels == old(self).panels,
            final(self).next_id == old(self).next_id,
            ({
                let kept = old(self).workspaces@.filter(|w: Workspace| keep_ws(w));
                &&& (kept.len() > 0 ==> final(self).workspaces@ == kept)
                &&& (kept.len() == 0 ==> final(self).workspaces@.len() == 1 && final(self).workspaces@[0].panel_order@.len() == 0 && final(self).workspaces@[0].name@
                    == "default"@)
            }),
            keep_ws(old(self).workspaces@[old(self).active_workspace as int]) ==> final(self).workspaces@[final(self).active_workspace as int] == old(self).workspaces@[old(self).active_workspace as int],
    {
        let ghost oldws = self.workspaces@;
        let ghost oa = old(self).active_workspace as int;
        let mut kept: Vec<Workspace> = Vec::new();
        let mut new_active: usize = 0;
        let mut k: usize = 0;
        let oa_exec = self.active_workspace;
        let n = self.workspaces.len();
        proof {
            assert(oldws.take(0).filter(|w: Workspace| keep_ws(w)) =~= Seq::<Workspace>::empty());
        }
        while k < n
            invariant
                k <= n,
                n == oldws.len(),
                self.panels == old(self).panels,
                self.next_id == old(self).next_id,
                oldws == old(self).workspaces@,
                self.workspaces@ == oldws.skip(k as int),
                kept@ == oldws.take(k as int).filter(|w: Workspace| keep_ws(w)),
                kept@.len() <= k,
                new_active <= kept@.len(),
                oa < oldws.len(),
                oa == oa_exec as int,
                unique_order_ids(oldws),
                forall|w: int| 0 <= w < oldws.len() ==> (#[trigger] oldws[w]).wf(),
                order_ids_below(oldws, old(self).next_id),
                k > oa && keep_ws(oldws[oa]) ==> new_active < kept@.len() && kept@[new_active as int]
                    == oldws[oa],
                unique_order_ids(kept@ + oldws.skip(k as int)),
                forall|w: int| 0 <= w < kept@.len() ==> (#[trigger] kept@[w]).wf(),
                order_ids_below(kept@, old(self).next_id),
            decreases n - k,
        {
            let ghost pre_kept = kept@;
            let w = self.workspaces.remove(0);
            proof {
                assert(oldws.skip(k as int)[0] == oldws[k as int]);
                assert(w == oldws[k as int]);
                assert(self.workspaces@ =~= oldws.skip(k + 1));
                assert(oldws.take(k + 1) =~= oldws.take(k as int).push(w));
                seq_filter_push(oldws.take(k as int), w);
            }
            if k == oa_exec {
                new_active = kept.len();
            }
            let keep = w.panel_order.len() > 0 || str_eq(w.name.as_str(), "default");
            proof {
                reveal_strlit("default");
                assert(keep == keep_ws(w));
            }
            if keep {
                kept.push(w);
                proof {
                    assert(kept@ =~= oldws.take(k + 1).filter(|x: Workspace| keep_ws(x)));
                    assert(pre_kept + oldws.skip(k as int) =~= kept@ + oldws.skip(k + 1));
                }
            } else {
                proof {
                    assert(kept@ =~= oldws.take(k + 1).filter(|x: Workspace| keep_ws(x)));
                    let joined = pre_kept + oldws.skip(k as int);
                    let after = kept@ + oldws.skip(k + 1);
                    assert(after =~= joined.remove(pre_kept.len() as int));
                    lemma_ws_seq_remove_unique(joined, pre_kept.len() as int);
                }
            }
            k = k + 1;
        }
        proof {
            assert(oldws.take(n as int) =~= oldws);
            assert(kept@ + oldws.skip(n as int) =~= kept@);
        }
        if kept.len() == 0 {
            kept.push(Workspace::new(String::from_str("default")));
            new_active = 0;
        } else if new_active >= kept.len() {
            new_active = kept.len() - 1;
        }
        self.workspaces = kept;
        self.active_workspace = new_active;
        proof {
            assert(unique_order_ids(self.workspaces@));
        }
    }


    /// Build the not-found error reply for an unknown terminal id.
    fn not_found(&self, id: &str) -> (r: Response)
        ensures
            !r.ok,
            r.error matches Some(e) && e@ == not_found_text(id@),
    {
        let mut v = chars_of("Terminal not found: ");
        let idc = chars_of(id);
        let ghost base = v@;
        let mut k: usize = 0;
        while k < idc.len()
            invariant
                k <= idc@.len(),
                v@ == base + idc@.subrange(0, k as int),
            decreases idc@.len() - k,
        {
            v.push(idc[k]);
            k = k + 1;
            proof {
                assert(v@ =~= base + idc@.subrange(0, k as int));
            }
        }
        proof {
            assert(v@ =~= "Terminal not found: "@ + id@);
        }
        Response::error(string_of(&v))
    }

    /// Apply one decoded control request to the session state and produce
    /// the reply. `Ping` and `Restart` leave the state untouched (the
    /// caller performs the actual restart); the terminal operations update
    /// exactly the addressed panel, or fail with a not-found reply.

    pub fn apply_request(&mut self, req: &Request) -> (r: Response)
        requires
            old(self).wf(),
        ensures
            apply_request_rel(*old(self), *req, *final(self), r),
    {
        match req {
            Request::Ping => Response::ok(),
            Request::Restart => Response::ok(),
            Request::TermRename { terminal, title } => {
                match self.find_panel(terminal.as_str()) {
                    Some(k) => {
                        let mut p = self.panels[k].clone();
                        p.custom_title = Some(title.clone());
                        self.panels.set(k, p);
                        Response::ok()
                    },
                    None => self.not_found(terminal.as_str()),
                }
            },
            Request::TermDesc { terminal, description } => {
                match self.find_panel(terminal.as_str()) {
                    Some(k) => {
                        let mut p = self.panels[k].clone();
                        p.cli_description = if description.as_str().is_empty() {
                            None
                        } else {
                            Some(description.clone())
                        };
                        self.panels.set(k, p);
                        Response::ok()
                    },
                    None => self.not_found(terminal.as_str()),
                }
            },
            Request::TermIcon { terminal, icon } => {
                match self.find_panel(terminal.as_str()) {
                    Some(k) => {
                        let mut p = self.panels[k].clone();
                        p.icon = if icon.as_str().is_empty() {
                            None
                        } else {
                            Some(icon.clone())
                        };
                        self.panels.set(k, p);
                        Response::ok()
                    },
                    None => self.not_found(terminal.as_str()),
                }
            },
            Request::TermNotify { terminal } => {
                match self.find_panel(terminal.as_str()) {
                    Some(k) => {
                        let mut p = self.panels[k].clone();
                        p.notified = true;
                        self.panels.set(k, p);
                        Response::ok()
                    },
                    None => self.not_found(terminal.as_str()),
                }
            },
            Request::TermToWorkspace { terminal, workspace_name } => {
                match self.find_panel(terminal.as_str()) {
                    Some(k) => {
                        let pid = self.panels[k].internal_id;
                        proof {
                            assert(old(self).panels@[k as int].internal_id < old(self).next_id);
                        }
                        self.move_panel_to_workspace(pid, workspace_name);
                        Response::ok()
                    },
                    None => self.not_found(terminal.as_str()),
                }
            },
        }
    }

    /// Move the panel with internal id `pid` to the workspace named
    /// `workspace_name`, creating it if needed, and make that workspace
    /// active with the moved panel focused. If the panel already sits in a
    /// workspace of that name, only the active workspace changes. Empty
    /// workspaces left behind are dropped (except `default`).
    pub fn move_panel_to_workspace(&mut self, pid: u64, workspace_name: &String)
        requires
            old(self).wf(),
            pid < old(self).next_id,
        ensures
            final(self).wf(),
            final(self).panels == old(self).panels,
            final(self).next_id == old(self).next_id,
            (exists|t: int|
                {
                    &&& 0 <= t < final(self).workspaces@.len()
                    &&& (#[trigger] final(self).workspaces@[t]).name@ == workspace_name@
                    &&& final(self).workspaces@[t].panel_order@.len() > 0
                    &&& final(self).workspaces@[t].panel_order@.contains(pid)
                    &&& final(self).active_workspace == t
                }),
            forall|w: int, p: int|
                0 <= w < final(self).workspaces@.len() && 0 <= p < final(self).workspaces@[w].panel_order@.len() && #[trigger] final(self).workspaces@[w].panel_order@[p] == pid ==> final(self).workspaces@[w].name@
                    == workspace_name@,
    {
        let cur = self.find_ws_with(pid);
        proof {
            lemma_find_ws_with_props(self.workspaces@, pid, 0);
        }
        match cur {
            Some(c) => {
                if str_eq(self.workspaces[c].name.as_str(), workspace_name.as_str()) {
                    self.active_workspace = c;
                    proof {
                        let wsv = self.workspaces@;
                        let w0 = choose|q: int|
                            0 <= q < wsv[c as int].panel_order@.len() && wsv[
                                c as int
                            ].panel_order@[q] == pid;
                        assert(wsv[c as int].panel_order@.contains(pid));
                        assert forall|w: int, p: int|
                            0 <= w < wsv.len() && 0 <= p < wsv[w].panel_order@.len()
                                && #[trigger] wsv[w].panel_order@[p] == pid implies wsv[w].name@
                            == workspace_name@ by {
                            if w != c as int || p != w0 {
                                assert(wsv[w].panel_order@[p] != wsv[c as int].panel_order@[w0]);
                            }
                            assert(w == c as int && p == w0);
                        }
                    }
                    return ;
                }
                let pos = order_index_of(&self.workspaces[c].panel_order, pid);
                self.remove_slot(c, pos);
            },
            None => {},
        }
        let ghost mid = *self;
        proof {
            lemma_find_ws_with_props(mid.workspaces@, pid, 0);
        }
        let t = match self.find_ws_named(workspace_name.as_str()) {
            Some(t) => {
                proof {
                    lemma_find_ws_named_props(self.workspaces@, workspace_name@, 0);
                }
                t
            },
            None => {
                self.workspaces.push(Workspace::new(workspace_name.clone()));
                proof {
                    lemma_push_empty_ws(mid.workspaces@, self.workspaces@, mid.next_id);
                }
                self.workspaces.len() - 1
            },
        };
        proof {
            assert(self.workspaces@[t as int].name@ == workspace_name@);
        }
        let ghost before_push = *self;
        let mut ws = replace_ws(&mut self.workspaces, t, Workspace::new(String::new()));
        let ghost oldord = ws.panel_order@;
        ws.panel_order.push(pid);
        ws.focused_index = ws.panel_order.len() - 1;
        let _ = replace_ws(&mut self.workspaces, t, ws);
        self.active_workspace = t;
        proof {
            let oldv = before_push.workspaces@;
            let wsv = self.workspaces@;
            assert(oldord.push(pid) =~= oldord.insert(oldord.len() as int, pid));
            assert forall|a: int, b: int, i: int, j: int|
                0 <= a < wsv.len() && 0 <= b < wsv.len() && 0 <= i < wsv[a].panel_order@.len() && 0
                    <= j < wsv[b].panel_order@.len() && (a != b || i != j) implies #[trigger] wsv[a].panel_order@[i] != #[trigger] wsv[b].panel_order@[j] by {
                lemma_insert_unique(
                    oldv,
                    wsv,
                    t as int,
                    oldord.len() as int,
                    pid,
                    a,
                    b,
                    i,
                    j,
                );
            }
            assert forall|a: int, i: int|
                0 <= a < wsv.len() && 0 <= i < wsv[a].panel_order@.len() implies #[trigger] wsv[a].panel_order@[i] < self.next_id by {
                oldord.insert_ensures(oldord.len() as int, pid);
                if a == t as int {
                    if i < oldord.len() {
                        assert(wsv[a].panel_order@[i] == oldv[a].panel_order@[i]);
                    } else {
                        assert(wsv[a].panel_order@[i] == pid);
                    }
                }
            }
            assert(wsv[t as int].panel_order@.last() == pid);
            assert(wsv[t as int].panel_order@.contains(pid));
            assert(wsv[t as int].name@ == workspace_name@);
        }
        let ghost before_clean = *self;
        self.cleanup_empty_workspaces();
        proof {
            let bw = before_clean.workspaces@;
            let fw = self.workspaces@;
            let pred = |w: Workspace| keep_ws(w);
            assert(keep_ws(bw[t as int]));
            assert(bw.filter(pred).len() > 0) by {
                Seq::lemma_filter_contains(bw, pred, t as int);
                if bw.filter(pred).len() == 0 {
                    assert(!bw.filter(pred).contains(bw[t as int]));
                }
            }
            assert(fw == bw.filter(pred));
            assert(fw[self.active_workspace as int] == bw[t as int]);
            assert(bw[t as int].name@ == workspace_name@);
            assert(fw[self.active_workspace as int].panel_order@.contains(pid));
            let w0 = choose|q: int|
                0 <= q < fw[self.active_workspace as int].panel_order@.len() && fw[
                    self.active_workspace as int
                ].panel_order@[q] == pid;
            assert forall|w: int, p: int|
                0 <= w < fw.len() && 0 <= p < fw[w].panel_order@.len() && #[trigger] fw[w].panel_order@[p] == pid implies fw[w].name@ == workspace_name@ by {
                let aw2 = self.active_workspace as int;
                assert(0 <= aw2 < fw.len());
                assert(0 <= w0 < fw[aw2].panel_order@.len());
                assert(fw[aw2].panel_order@[w0] == pid);
                assert(unique_order_ids(fw));
                if w != aw2 || p != w0 {
                    assert(fw[w].panel_order@[p] != fw[aw2].panel_order@[w0]);
                    assert(false);
                }
            }
        }
    }

    /// Apply a batch of requests in order. The final state and the replies
    /// are exactly the sequential application of the per-request relation:
    /// every request steps the state once and gets exactly one reply, at
    /// the same position, none lost and none duplicated.
    pub fn handle_all(&mut self, reqs: &Vec<Request>) -> (rs: Vec<Response>)
        requires
            old(self).wf(),
        ensures
            final(self).wf(),
            rs@.len() == reqs@.len(),
            apply_all_rel(*old(self), reqs@, *final(self), rs@),
    {
        let mut rs: Vec<Response> = Vec::new();
        let mut i: usize = 0;
        proof {
            assert(reqs@.take(0) =~= Seq::<Request>::empty());
        }
        while i < reqs.len()
            invariant
                i <= reqs@.len(),
                rs@.len() == i,
                self.wf(),
                apply_all_rel(*old(self), reqs@.take(i as int), *self, rs@),
            decreases reqs@.len() - i,
        {
            let ghost mid = *self;
            let ghost rs_before = rs@;
            let r = self.apply_request(&reqs[i]);
            proof {
                lemma_apply_all_snoc(
                    *old(self),
                    reqs@.take(i as int),
                    mid,
                    rs_before,
                    reqs@[i as int],
                    *self,
                    r,
                );
                assert(reqs@.take(i + 1) =~= reqs@.take(i as int).push(reqs@[i as int]));
            }
            rs.push(r);
            i = i + 1;
        }
        proof {
            assert(reqs@.take(reqs@.len() as int) =~= reqs@);
        }
        rs
    }


    /// Set a workspace's focused slot, pulled into range: the given index
    /// when it is inside the strip, the last slot when it is past the end
    /// of a nonempty strip, and zero on an empty strip.
    pub fn set_focus(&mut self, w: usize, f: usize)
        requires
            old(self).wf(),
            w < old(self).workspaces@.len(),
        ensures
            final(self).wf(),
            final(self).panels == old(self).panels,
            final(self).next_id == old(self).next_id,
            final(self).active_workspace == old(self).active_workspace,
            final(self).workspaces@.len() == old(self).workspaces@.len(),
            forall|x: int|
                0 <= x < old(self).workspaces@.len() && x != w ==> final(self).workspaces@[x]
                    == old(self).workspaces@[x],
            final(self).workspaces@[w as int].name@ == old(self).workspaces@[w as int].name@,
            final(self).workspaces@[w as int].panel_order == old(
                self,
            ).workspaces@[w as int].panel_order,
            ({
                let len = old(self).workspaces@[w as int].panel_order@.len();
                final(self).workspaces@[w as int].focused_index == if len == 0 {
                    0int
                } else if f < len {
                    f as int
                } else {
                    len - 1
                }
            }),
    {
        let mut ws = replace_ws(&mut self.workspaces, w, Workspace::new(String::new()));
        if ws.panel_order.len() == 0 {
            ws.focused_index = 0;
        } else if f < ws.panel_order.len() {
            ws.focused_index = f;
        } else {
            ws.focused_index = ws.panel_order.len() - 1;
        }
        let _ = replace_ws(&mut self.workspaces, w, ws);
        proof {
            let oldv = old(self).workspaces@;
            let wsv = self.workspaces@;
            assert forall|a: int, b: int, i: int, j: int|
                0 <= a < wsv.len() && 0 <= b < wsv.len() && 0 <= i < wsv[a].panel_order@.len() && 0
                    <= j < wsv[b].panel_order@.len() && (a != b || i != j) implies #[trigger] wsv[a].panel_order@[i] != #[trigger] wsv[b].panel_order@[j] by {
                assert(wsv[a].panel_order@ == oldv[a].panel_order@);
                assert(wsv[b].panel_order@ == oldv[b].panel_order@);
            }
            assert forall|a: int, i: int|
                0 <= a < wsv.len() && 0 <= i < wsv[a].panel_order@.len() implies #[trigger] wsv[a].panel_order@[i] < self.next_id by {
                assert(wsv[a].panel_order@ == oldv[a].panel_order@);
            }
        }
    }

    /// Raise the id counter to at least `n`, so ids recorded before a
    /// restart are never handed out again.
    pub fn bump_next_id(&mut self, n: u64)
        requires
            old(self).wf(),
        ensures
            final(self).wf(),
            *final(self) == (SessionStore {
                next_id: if old(self).next_id >= n {
                    old(self).next_id
                } else {
                    n
                },
                ..*old(self)
            }),
    {
        if self.next_id < n {
            self.next_id = n;
        }
    }


    /// Every strip id refers to a panel.
    pub open spec fn complete(self) -> bool {
        forall|w: int, i: int|
            0 <= w < self.workspaces@.len() && 0 <= i < self.workspaces@[w].panel_order@.len()
                ==> spec_panel_by_id(self.panels@, #[trigger] self.workspaces@[w].panel_order@[i])
                is Some
    }

    /// Capture the whole session state as a snapshot, immediately before a
    /// restart: one persisted workspace per workspace, each listing the
    /// panels its strip shows, in strip order.
    pub fn to_persisted_state(&self) -> (r: PersistedState)
        requires
            self.wf(),
            self.complete(),
            forall|p: int| 0 <= p < self.panels@.len() ==> (#[trigger] self.panels@[p]).pty_fd >= 0,
        ensures
            r.version == STATE_VERSION,
            r.active_workspace == self.active_workspace,
            r.next_id == self.next_id,
            r.workspaces@.len() == self.workspaces@.len(),
            forall|w: int|
                0 <= w < self.workspaces@.len() ==> {
                    let pw = #[trigger] r.workspaces@[w];
                    let sw = self.workspaces@[w];
                    &&& pw.name@ == sw.name@
                    &&& pw.panel_order@ == sw.panel_order@
                    &&& pw.focused_index == sw.focused_index
                    &&& pw.terminals@.len() == sw.panel_order@.len()
                    &&& (forall|t: int|
                        0 <= t < sw.panel_order@.len() ==> (#[trigger] pw.terminals@[t])@
                            == panel_to_spec_terminal(
                            self.panels@[spec_panel_by_id(
                                self.panels@,
                                sw.panel_order@[t],
                            ).unwrap()],
                        ))
                },
            crate::snapshot::state_wf(r@),
    {
        let mut workspaces: Vec<PersistedWorkspace> = Vec::new();
        let mut w: usize = 0;
        while w < self.workspaces.len()
            invariant
                w <= self.workspaces@.len(),
                self.wf(),
                self.complete(),
                forall|p: int|
                    0 <= p < self.panels@.len() ==> (#[trigger] self.panels@[p]).pty_fd >= 0,
                workspaces@.len() == w,
                forall|x: int|
                    0 <= x < w ==> {
                        let pw = #[trigger] workspaces@[x];
                        let sw = self.workspaces@[x];
                        &&& pw.name@ == sw.name@
                        &&& pw.panel_order@ == sw.panel_order@
                        &&& pw.focused_index == sw.focused_index
                        &&& pw.terminals@.len() == sw.panel_order@.len()
                        &&& (forall|t: int|
                            0 <= t < sw.panel_order@.len() ==> (#[trigger] pw.terminals@[t])@
                                == panel_to_spec_terminal(
                                self.panels@[spec_panel_by_id(
                                    self.panels@,
                                    sw.panel_order@[t],
                                ).unwrap()],
                            ) && pw.terminals@[t].pty_fd >= 0)
                    },
            decreases self.workspaces@.len() - w,
        {
            let sw = &self.workspaces[w];
            let mut terminals: Vec<PersistedTerminal> = Vec::new();
            let mut t: usize = 0;
            while t < sw.panel_order.len()
                invariant
                    t <= sw.panel_order@.len(),
                    sw == self.workspaces@[w as int],
                    w < self.workspaces@.len(),
                    self.wf(),
                    self.complete(),
                    forall|p: int|
                        0 <= p < self.panels@.len() ==> (#[trigger] self.panels@[p]).pty_fd >= 0,
                    terminals@.len() == t,
                    forall|x: int|
                        0 <= x < t ==> (#[trigger] terminals@[x])@ == panel_to_spec_terminal(
                            self.panels@[spec_panel_by_id(
                                self.panels@,
                                sw.panel_order@[x],
                            ).unwrap()],
                        ) && terminals@[x].pty_fd >= 0,
                decreases sw.panel_order@.len() - t,
            {
                let id = sw.panel_order[t];
                let k = match panel_index_by_id(&self.panels, id) {
                    Some(k) => k,
                    None => {
                        proof {
                            assert(spec_panel_by_id(self.panels@, id) is Some);
                            assert(false);
                        }
                        0
                    },
                };
                let p = &self.panels[k];
                terminals.push(
                    PersistedTerminal {
                        internal_id: p.internal_id,
                        external_id: p.external_id.clone(),
                        pty_fd: p.pty_fd,
                        pty_pid: p.pty_pid,
                        width_permille: p.width_permille,
                        title: p.title.clone(),
                        custom_title: match &p.custom_title {
                            Some(x) => Some(x.clone()),
                            None => None,
                        },
                        description: p.description.clone(),
                        cli_description: match &p.cli_description {
                            Some(x) => Some(x.clone()),
                            None => None,
                        },
                        icon: match &p.icon {
                            Some(x) => Some(x.clone()),
                            None => None,
                        },
                        cwd: match &p.cwd {
                            Some(x) => Some(x.clone()),
                            None => None,
                        },
                    },
                );
                t = t + 1;
            }
            workspaces.push(
                PersistedWorkspace {
                    name: sw.name.clone(),
                    panel_order: sw.panel_order.clone(),
                    focused_index: sw.focused_index,
                    terminals,
                },
            );
            w = w + 1;
        }
        let r = PersistedState {
            version: STATE_VERSION,
            workspaces,
            active_workspace: self.active_workspace,
            next_id: self.next_id,
        };
        proof {
            assert forall|i: int|
                0 <= i < r@.workspaces.len() implies crate::snapshot::ws_wf(
                #[trigger] r@.workspaces[i],
            ) by {
                assert forall|q: int|
                    0 <= q < r@.workspaces[i].terminals.len() implies crate::snapshot::term_wf(
                    #[trigger] r@.workspaces[i].terminals[q],
                ) by {
                    assert(r.workspaces@[i].terminals@[q].pty_fd >= 0);
                }
            }
        }
        r
    }

    /// Append a new, empty workspace with this name.
    pub fn add_workspace(&mut self, name: String)
        requires
            old(self).wf(),
        ensures
            final(self).wf(),
            final(self).panels == old(self).panels,
            final(self).next_id == old(self).next_id,
            final(self).active_workspace == old(self).active_workspace,
            final(self).workspaces@.len() == old(self).workspaces@.len() + 1,
            forall|w: int|
                0 <= w < old(self).workspaces@.len() ==> final(self).workspaces@[w] == old(self).workspaces@[w],
            final(self).workspaces@.last().name@ == name@,
            final(self).workspaces@.last().panel_order@.len() == 0,
            final(self).workspaces@.last().focused_index == 0,
    {
        self.workspaces.push(Workspace::new(name));
        proof {
            lemma_push_empty_ws(old(self).workspaces@, self.workspaces@, self.next_id);
        }
    }

    /// Make the workspace at this index active.
    pub fn set_active(&mut self, w: usize)
        requires
            old(self).wf(),
            w < old(self).workspaces@.len(),
        ensures
            final(self).wf(),
            *final(self) == (SessionStore { active_workspace: w, ..*old(self) }),
    {
        self.active_workspace = w;
    }

    /// Re-register one terminal restored from a snapshot: keep its display
    /// fields and descriptor pair, assign a fresh internal id, and show it
    /// at the end of the active workspace's strip.
    pub fn restore_panel(&mut self, t: &PersistedTerminal) -> (id: u64)
        requires
            old(self).wf(),
            old(self).next_id < u64::MAX,
        ensures
            final(self).wf(),
            id == old(self).next_id,
            final(self).next_id == old(self).next_id + 1,
            final(self).panels@.len() == old(self).panels@.len() + 1,
            forall|j: int|
                0 <= j < old(self).panels@.len() ==> final(self).panels@[j] == old(self).panels@[j],
            final(self).panels@.last()@ == (crate::store::SpecPanel {
                internal_id: old(self).next_id,
                external_id: t.external_id@,
                title: t.title@,
                custom_title: sopt(t.custom_title),
                description: t.description@,
                cli_description: sopt(t.cli_description),
                icon: sopt(t.icon),
                notified: false,
                width_permille: t.width_permille,
                cwd: sopt(t.cwd),
                pty_fd: t.pty_fd,
                pty_pid: t.pty_pid,
            }),
            final(self).active_workspace == old(self).active_workspace,
            final(self).workspaces@.len() == old(self).workspaces@.len(),
            forall|w: int|
                0 <= w < old(self).workspaces@.len() && w != old(self).active_workspace
                    ==> final(self).workspaces@[w] == old(self).workspaces@[w],
            ({
                let aw = old(self).active_workspace as int;
                let oldws = old(self).workspaces@[aw];
                let newws = final(self).workspaces@[aw];
                &&& newws.name@ == oldws.name@
                &&& newws.panel_order@ == oldws.panel_order@.push(id)
                &&& newws.focused_index == oldws.focused_index
            }),
    {
        let id = self.next_id;
        self.next_id = self.next_id + 1;
        let panel = PanelState {
            internal_id: id,
            external_id: t.external_id.clone(),
            title: t.title.clone(),
            custom_title: match &t.custom_title {
                Some(x) => Some(x.clone()),
                None => None,
            },
            description: t.description.clone(),
            cli_description: match &t.cli_description {
                Some(x) => Some(x.clone()),
                None => None,
            },
            icon: match &t.icon {
                Some(x) => Some(x.clone()),
                None => None,
            },
            notified: false,
            width_permille: t.width_permille,
            cwd: match &t.cwd {
                Some(x) => Some(x.clone()),
                None => None,
            },
            pty_fd: t.pty_fd,
            pty_pid: t.pty_pid,
        };
        self.panels.push(panel);
        let aw = self.active_workspace;
        let mut ws = replace_ws(&mut self.workspaces, aw, Workspace::new(String::new()));
        let ghost pos = ws.panel_order@.len() as int;
        ws.panel_order.push(id);
        let _ = replace_ws(&mut self.workspaces, aw, ws);
        proof {
            let wsv = self.workspaces@;
            let oldv = old(self).workspaces@;
            assert(wsv[aw as int].panel_order@ =~= oldv[aw as int].panel_order@.insert(pos, id));
            assert forall|w2: int, p2: int|
                0 <= w2 < oldv.len() && 0 <= p2 < oldv[w2].panel_order@.len() implies #[trigger] oldv[w2].panel_order@[p2] != id by {
                assert(oldv[w2].panel_order@[p2] < id);
            }
            assert forall|a: int, b: int, i2: int, j2: int|
                0 <= a < wsv.len() && 0 <= b < wsv.len() && 0 <= i2 < wsv[a].panel_order@.len()
                    && 0 <= j2 < wsv[b].panel_order@.len() && (a != b || i2 != j2) implies #[trigger] wsv[a].panel_order@[i2] != #[trigger] wsv[b].panel_order@[j2] by {
                lemma_insert_unique(oldv, wsv, aw as int, pos, id, a, b, i2, j2);
            }
            assert forall|a: int, i2: int|
                0 <= a < wsv.len() && 0 <= i2 < wsv[a].panel_order@.len() implies #[trigger] wsv[a].panel_order@[i2] < self.next_id by {
                lemma_insert_below(oldv, wsv, aw as int, pos, id, self.next_id, a, i2);
            }
        }
        id
    }

    /// Drop the session with internal id `id`: take it off whichever strip
    /// shows it, drop its panel record, and clean up workspaces left
    /// empty. This is the bookkeeping for a child that exited.
    pub fn remove_panel(&mut self, id: u64)
        requires
            old(self).wf(),
        ensures
            final(self).wf(),
            final(self).next_id == old(self).next_id,
            forall|w: int, p: int|
                0 <= w < final(self).workspaces@.len() && 0 <= p < final(self).workspaces@[w].panel_order@.len() ==> #[trigger] final(self).workspaces@[w].panel_order@[p] != id,
            match spec_panel_by_id(old(self).panels@, id) {
                Some(k) => final(self).panels@ == old(self).panels@.remove(k),
                None => final(self).panels == old(self).panels,
            },
    {
        match self.find_ws_with(id) {
            Some(c) => {
                proof {
                    lemma_find_ws_with_props(self.workspaces@, id, 0);
                }
                let pos = order_index_of(&self.workspaces[c].panel_order, id);
                self.remove_slot(c, pos);
            },
            None => {
                proof {
                    lemma_find_ws_with_props(self.workspaces@, id, 0);
                    assert forall|w: int, p: int|
                        0 <= w < self.workspaces@.len() && 0 <= p < self.workspaces@[w].panel_order@.len() implies #[trigger] self.workspaces@[w].panel_order@[p] != id by {
                        if self.workspaces@[w].panel_order@[p] == id {
                            assert(self.workspaces@[w].panel_order@.contains(id));
                        }
                    }
                }
            },
        }
        match panel_index_by_id(&self.panels, id) {
            Some(k) => {
                self.panels.remove(k);
            },
            None => {},
        }
        let ghost pre = *self;
        self.cleanup_empty_workspaces();
        proof {
            let pred = |w: Workspace| keep_ws(w);
            let kept = pre.workspaces@.filter(pred);
            if kept.len() > 0 {
                lemma_filter_strips_without(pre.workspaces@, pred, id);
            }
        }
    }

    /// Find a panel by its external id.
    pub fn find_panel(&self, id: &str) -> (r: Option<usize>)
        ensures
            match r {
                Some(k) => spec_find_panel(self.panels@, id@, 0) == Some(k as int) && k
                    < self.panels@.len(),
                None => spec_find_panel(self.panels@, id@, 0) is None,
            },
    {
        let mut k: usize = 0;
        while k < self.panels.len()
            invariant
                k <= self.panels@.len(),
                spec_find_panel(self.panels@, id@, 0) == spec_find_panel(
                    self.panels@,
                    id@,
                    k as int,
                ),
            decreases self.panels@.len() - k,
        {
            if str_eq(self.panels[k].external_id.as_str(), id) {
                return Some(k);
            }
            k = k + 1;
        }
        None
    }
}


/// Whether a strip contains an id.
pub fn order_contains(v: &Vec<u64>, x: u64) -> (r: bool)
    ensures
        r == v@.contains(x),
{
    let mut k: usize = 0;
    while k < v.len()
        invariant
            k <= v@.len(),
            forall|j: int| 0 <= j < k ==> v@[j] != x,
        decreases v@.len() - k,
    {
        if v[k] == x {
            return true;
        }
        k = k + 1;
    }
    proof {
        if v@.contains(x) {
            let w = choose|w: int| 0 <= w < v@.len() && v@[w] == x;
            assert(false);
        }
    }
    false
}

/// Swap the workspace at `at` for `with`, returning the old one.
fn replace_ws(ws: &mut Vec<Workspace>, at: usize, with: Workspace) -> (r: Workspace)
    requires
        at < old(ws)@.len(),
    ensures
        r == old(ws)@[at as int],
        final(ws)@ == old(ws)@.update(at as int, with),
{
    ws.push(with);
    let r = ws.swap_remove(at);
    proof {
        assert(final(ws)@ =~= old(ws)@.update(at as int, with));
    }
    r
}




/// Index of the first occurrence of `x` in a strip that contains it.
fn order_index_of(v: &Vec<u64>, x: u64) -> (r: usize)
    requires
        v@.contains(x),
    ensures
        r < v@.len(),
        v@[r as int] == x,
{
    let mut k: usize = 0;
    while k < v.len()
        invariant
            k <= v@.len(),
            v@.contains(x),
            forall|j: int| 0 <= j < k ==> v@[j] != x,
        decreases v@.len() - k,
    {
        if v[k] == x {
            return k;
        }
        k = k + 1;
    }
    proof {
        let w = choose|w: int| 0 <= w < v@.len() && v@[w] == x;
        assert(false);
    }
    0
}

pub proof fn lemma_find_ws_with_props(ws: Seq<Workspace>, x: u64, w: int)
    requires
        0 <= w <= ws.len(),
    ensures
        match spec_find_ws_with(ws, x, w) {
            Some(c) => w <= c < ws.len() && ws[c].panel_order@.contains(x),
            None => forall|c: int| w <= c < ws.len() ==> !(#[trigger] ws[c].panel_order@).contains(
                x,
            ),
        },
    decreases ws.len() - w,
{
    if w < ws.len() && !ws[w].panel_order@.contains(x) {
        lemma_find_ws_with_props(ws, x, w + 1);
    }
}


pub proof fn lemma_find_ws_named_props(ws: Seq<Workspace>, n: Seq<char>, w: int)
    requires
        0 <= w <= ws.len(),
    ensures
        match spec_find_ws_named(ws, n, w) {
            Some(c) => w <= c < ws.len() && ws[c].name@ == n,
            None => forall|c: int| w <= c < ws.len() ==> (#[trigger] ws[c]).name@ != n,
        },
    decreases ws.len() - w,
{
    if w < ws.len() && ws[w].name@ != n {
        lemma_find_ws_named_props(ws, n, w + 1);
    }
}

/// Appending an empty workspace preserves strip-id facts.
proof fn lemma_push_empty_ws(oldv: Seq<Workspace>, wsv: Seq<Workspace>, bound: u64)
    requires
        unique_order_ids(oldv),
        order_ids_below(oldv, bound),
        wsv.len() == oldv.len() + 1,
        forall|w: int| 0 <= w < oldv.len() ==> wsv[w] == oldv[w],
        wsv.last().panel_order@.len() == 0,
    ensures
        unique_order_ids(wsv),
        order_ids_below(wsv, bound),
{
    assert forall|a: int, b: int, i: int, j: int|
        0 <= a < wsv.len() && 0 <= b < wsv.len() && 0 <= i < wsv[a].panel_order@.len() && 0 <= j
            < wsv[b].panel_order@.len() && (a != b || i != j) implies #[trigger] wsv[a].panel_order@[i] != #[trigger] wsv[b].panel_order@[j] by {
        assert(a < oldv.len() && b < oldv.len());
    }
    assert forall|a: int, i: int|
        0 <= a < wsv.len() && 0 <= i < wsv[a].panel_order@.len() implies #[trigger] wsv[a].panel_order@[i] < bound by {
        assert(a < oldv.len());
    }
}


/// First panel index carrying this internal id.
pub open spec fn spec_panel_by_id_from(panels: Seq<PanelState>, id: u64, i: int) -> Option<int>
    decreases panels.len() - i,
{
    if i < 0 || i >= panels.len() {
        None
    } else if panels[i].internal_id == id {
        Some(i)
    } else {
        spec_panel_by_id_from(panels, id, i + 1)
    }
}

/// First panel index carrying this internal id, from the start.
pub open spec fn spec_panel_by_id(panels: Seq<PanelState>, id: u64) -> Option<int> {
    spec_panel_by_id_from(panels, id, 0)
}

/// The persisted form of a panel's metadata.
pub open spec fn panel_to_spec_terminal(p: PanelState) -> SpecTerminal {
    SpecTerminal {
        internal_id: p.internal_id,
        external_id: p.external_id@,
        pty_fd: p.pty_fd,
        pty_pid: p.pty_pid,
        width_permille: p.width_permille,
        title: p.title@,
        custom_title: opt_view(p.custom_title),
        description: p.description@,
        cli_description: opt_view(p.cli_description),
        icon: opt_view(p.icon),
        cwd: opt_view(p.cwd),
    }
}

/// Find a panel by its internal id.
pub fn panel_index_by_id(panels: &Vec<PanelState>, id: u64) -> (r: Option<usize>)
    ensures
        match r {
            Some(k) => spec_panel_by_id(panels@, id) == Some(k as int) && k < panels@.len()
                && panels@[k as int].internal_id == id,
            None => spec_panel_by_id(panels@, id) is None,
        },
{
    let mut k: usize = 0;
    while k < panels.len()
        invariant
            k <= panels@.len(),
            spec_panel_by_id(panels@, id) == spec_panel_by_id_from(panels@, id, k as int),
        decreases panels@.len() - k,
    {
        if panels[k].internal_id == id {
            proof {
                lemma_panel_by_id_props(panels@, id, k as int);
            }
            return Some(k);
        }
        k = k + 1;
    }
    None
}

pub proof fn lemma_panel_by_id_props(panels: Seq<PanelState>, id: u64, i: int)
    requires
        0 <= i <= panels.len(),
    ensures
        match spec_panel_by_id_from(panels, id, i) {
            Some(k) => i <= k < panels.len() && panels[k].internal_id == id,
            None => true,
        },
    decreases panels.len() - i,
{
    if i < panels.len() && panels[i].internal_id != id {
        lemma_panel_by_id_props(panels, id, i + 1);
    }
}


/// If no strip of `s` shows `id`, no strip of the filtered sequence does.
proof fn lemma_filter_strips_without(s: Seq<Workspace>, pred: spec_fn(Workspace) -> bool, id: u64)
    requires
        forall|w: int, p: int|
            0 <= w < s.len() && 0 <= p < s[w].panel_order@.len() ==> #[trigger] s[w].panel_order@[p]
                != id,
    ensures
        forall|w: int, p: int|
            0 <= w < s.filter(pred).len() && 0 <= p < s.filter(pred)[w].panel_order@.len()
                ==> #[trigger] s.filter(pred)[w].panel_order@[p] != id,
    decreases s.len(),
{
    reveal(Seq::filter);
    if s.len() > 0 {
        assert forall|w: int, p: int|
            0 <= w < s.drop_last().len() && 0 <= p
                < s.drop_last()[w].panel_order@.len() implies #[trigger] s.drop_last()[w].panel_order@[p] != id by {
            assert(s.drop_last()[w] == s[w]);
        }
        lemma_filter_strips_without(s.drop_last(), pred, id);
        let f = s.filter(pred);
        assert forall|w: int, p: int|
            0 <= w < f.len() && 0 <= p < f[w].panel_order@.len() implies #[trigger] f[w].panel_order@[p] != id by {
            if pred(s.last()) && w == f.len() - 1 {
                assert(f[w] == s.last());
                assert(s[s.len() - 1].panel_order@[p] != id);
            } else {
                assert(f[w] == s.drop_last().filter(pred)[w]);
            }
        }
    }
}

/// Filtering distributes over appending one element.
proof fn seq_filter_push(s: Seq<Workspace>, w: Workspace)
    ensures
        s.push(w).filter(|x: Workspace| keep_ws(x)) == if keep_ws(w) {
            s.filter(|x: Workspace| keep_ws(x)).push(w)
        } else {
            s.filter(|x: Workspace| keep_ws(x))
        },
{
    reveal(Seq::filter);
    assert(s.push(w).drop_last() =~= s);
    assert(s.push(w).last() == w);
    if keep_ws(w) {
        assert(s.push(w).filter(|x: Workspace| keep_ws(x)) =~= s.filter(
            |x: Workspace| keep_ws(x),
        ).push(w));
    }
}

/// Removing one element of a workspace sequence keeps all strip ids
/// pairwise distinct.
proof fn lemma_ws_seq_remove_unique(s: Seq<Workspace>, pos: int)
    requires
        unique_order_ids(s),
        0 <= pos < s.len(),
    ensures
        unique_order_ids(s.remove(pos)),
{
    s.remove_ensures(pos);
    let r = s.remove(pos);
    assert forall|a: int, b: int, i: int, j: int|
        0 <= a < r.len() && 0 <= b < r.len() && 0 <= i < r[a].panel_order@.len() && 0 <= j
            < r[b].panel_order@.len() && (a != b || i != j) implies #[trigger] r[a].panel_order@[i]
        != #[trigger] r[b].panel_order@[j] by {
        let aa = if a >= pos {
            a + 1
        } else {
            a
        };
        let bb = if b >= pos {
            b + 1
        } else {
            b
        };
        assert(r[a] == s[aa]);
        assert(r[b] == s[bb]);
        assert(aa != bb || i != j);
    }
}

/// After removing one slot from one strip, all strip ids stay pairwise
/// distinct.
proof fn lemma_strip_remove_unique(
    oldv: Seq<Workspace>,
    wsv: Seq<Workspace>,
    aw: int,
    pos: int,
    a: int,
    b: int,
    i: int,
    j: int,
)
    requires
        unique_order_ids(oldv),
        wsv.len() == oldv.len(),
        0 <= aw < oldv.len(),
        forall|w: int| 0 <= w < oldv.len() && w != aw ==> wsv[w] == oldv[w],
        0 <= pos < oldv[aw].panel_order@.len(),
        wsv[aw].panel_order@ == oldv[aw].panel_order@.remove(pos),
        0 <= a < wsv.len(),
        0 <= b < wsv.len(),
        0 <= i < wsv[a].panel_order@.len(),
        0 <= j < wsv[b].panel_order@.len(),
        a != b || i != j,
    ensures
        wsv[a].panel_order@[i] != wsv[b].panel_order@[j],
{
    let ord = oldv[aw].panel_order@;
    ord.remove_ensures(pos);
    let ii = if a == aw && i >= pos {
        i + 1
    } else {
        i
    };
    let jj = if b == aw && j >= pos {
        j + 1
    } else {
        j
    };
    assert(wsv[a].panel_order@[i] == oldv[a].panel_order@[ii]);
    assert(wsv[b].panel_order@[j] == oldv[b].panel_order@[jj]);
    assert(a != b || ii != jj);
}

/// After removing one slot from one strip, no id of the removed element's
/// value remains anywhere, and all ids stay below any old bound.
proof fn lemma_strip_remove_gone(oldv: Seq<Workspace>, wsv: Seq<Workspace>, aw: int, pos: int)
    requires
        unique_order_ids(oldv),
        wsv.len() == oldv.len(),
        0 <= aw < oldv.len(),
        forall|w: int| 0 <= w < oldv.len() && w != aw ==> wsv[w] == oldv[w],
        0 <= pos < oldv[aw].panel_order@.len(),
        wsv[aw].panel_order@ == oldv[aw].panel_order@.remove(pos),
    ensures
        forall|w: int, p: int|
            0 <= w < wsv.len() && 0 <= p < wsv[w].panel_order@.len()
                ==> #[trigger] wsv[w].panel_order@[p] != oldv[aw].panel_order@[pos],
{
    let ord = oldv[aw].panel_order@;
    ord.remove_ensures(pos);
    assert forall|w: int, p: int|
        0 <= w < wsv.len() && 0 <= p < wsv[w].panel_order@.len() implies #[trigger] wsv[w].panel_order@[p] != ord[pos] by {
        let pp = if w == aw && p >= pos {
            p + 1
        } else {
            p
        };
        assert(wsv[w].panel_order@[p] == oldv[w].panel_order@[pp]);
        assert(w != aw || pp != pos);
    }
}

/// Strip ids of one strip are each an id of the old strip seq.
proof fn lemma_strip_remove_below(
    oldv: Seq<Workspace>,
    wsv: Seq<Workspace>,
    aw: int,
    pos: int,
    bound: u64,
)
    requires
        order_ids_below(oldv, bound),
        wsv.len() == oldv.len(),
        0 <= aw < oldv.len(),
        forall|w: int| 0 <= w < oldv.len() && w != aw ==> wsv[w] == oldv[w],
        0 <= pos < oldv[aw].panel_order@.len(),
        wsv[aw].panel_order@ == oldv[aw].panel_order@.remove(pos),
    ensures
        order_ids_below(wsv, bound),
{
    let ord = oldv[aw].panel_order@;
    ord.remove_ensures(pos);
    assert forall|w: int, p: int|
        0 <= w < wsv.len() && 0 <= p < wsv[w].panel_order@.len() implies #[trigger] wsv[w].panel_order@[p] < bound by {
        let pp = if w == aw && p >= pos {
            p + 1
        } else {
            p
        };
        assert(wsv[w].panel_order@[p] == oldv[w].panel_order@[pp]);
    }
}

/// After inserting a fresh id below the new bound into one strip, all strip
/// ids are still pairwise distinct.
proof fn lemma_insert_unique(
    oldv: Seq<Workspace>,
    wsv: Seq<Workspace>,
    aw: int,
    pos: int,
    id: u64,
    a: int,
    b: int,
    i: int,
    j: int,
)
    requires
        unique_order_ids(oldv),
        forall|w: int, p: int|
            0 <= w < oldv.len() && 0 <= p < oldv[w].panel_order@.len()
                ==> #[trigger] oldv[w].panel_order@[p] != id,
        wsv.len() == oldv.len(),
        0 <= aw < oldv.len(),
        forall|w: int| 0 <= w < oldv.len() && w != aw ==> wsv[w] == oldv[w],
        0 <= pos <= oldv[aw].panel_order@.len(),
        wsv[aw].panel_order@ == oldv[aw].panel_order@.insert(pos, id),
        0 <= a < wsv.len(),
        0 <= b < wsv.len(),
        0 <= i < wsv[a].panel_order@.len(),
        0 <= j < wsv[b].panel_order@.len(),
        a != b || i != j,
    ensures
        wsv[a].panel_order@[i] != wsv[b].panel_order@[j],
{
    let ord = oldv[aw].panel_order@;
    ord.insert_ensures(pos, id);
    assert(wsv[aw].panel_order@.len() == ord.len() + 1);
    // Map a position in the updated strip back to the old strip.
    if a == aw && i == pos && b == aw && j == pos {
        assert(false);
    } else if a == aw && i == pos {
        // left side is the fresh id; the right side is an old id
        let jj = if b == aw {
            if j < pos {
                j
            } else {
                j - 1
            }
        } else {
            j
        };
        assert(wsv[b].panel_order@[j] == oldv[b].panel_order@[jj]);
        assert(oldv[b].panel_order@[jj] != id);
    } else if b == aw && j == pos {
        let ii = if a == aw {
            if i < pos {
                i
            } else {
                i - 1
            }
        } else {
            i
        };
        assert(wsv[a].panel_order@[i] == oldv[a].panel_order@[ii]);
        assert(oldv[a].panel_order@[ii] != id);
    } else {
        let ii = if a == aw && i > pos {
            i - 1
        } else {
            i
        };
        let jj = if b == aw && j > pos {
            j - 1
        } else {
            j
        };
        assert(wsv[a].panel_order@[i] == oldv[a].panel_order@[ii]);
        assert(wsv[b].panel_order@[j] == oldv[b].panel_order@[jj]);
        assert(a != b || ii != jj);
        assert(oldv[a].panel_order@[ii] != oldv[b].panel_order@[jj]);
    }
}

/// After inserting `id` (below `bound`) into one strip, all strip ids are
/// still below `bound`.
proof fn lemma_insert_below(
    oldv: Seq<Workspace>,
    wsv: Seq<Workspace>,
    aw: int,
    pos: int,
    id: u64,
    bound: u64,
    a: int,
    i: int,
)
    requires
        order_ids_below(oldv, bound),
        id < bound,
        wsv.len() == oldv.len(),
        0 <= aw < oldv.len(),
        forall|w: int| 0 <= w < oldv.len() && w != aw ==> wsv[w] == oldv[w],
        0 <= pos <= oldv[aw].panel_order@.len(),
        wsv[aw].panel_order@ == oldv[aw].panel_order@.insert(pos, id),
        0 <= a < wsv.len(),
        0 <= i < wsv[a].panel_order@.len(),
    ensures
        wsv[a].panel_order@[i] < bound,
{
    let ord = oldv[aw].panel_order@;
    ord.insert_ensures(pos, id);
    if a == aw {
        if i == pos {
        } else {
            let ii = if i < pos {
                i
            } else {
                i - 1
            };
            assert(wsv[a].panel_order@[i] == ord[ii]);
        }
    }
}


/// What one control request does: the exact relation between the state
/// before, the request, the state after, and the reply. `apply_request`
/// promises exactly this, and `apply_all_rel` chains it over a batch.
pub open spec fn apply_request_rel(
    pre: SessionStore,
    req: Request,
    post: SessionStore,
    r: Response,
) -> bool {
    &&& post.wf()
    &&& post.next_id == pre.next_id
    &&&         match req {
            Request::Ping => r.ok && post == pre,
            Request::Restart => r.ok && post == pre,
            Request::TermRename { terminal, title } => match spec_find_panel(
                pre.panels@,
                terminal@,
                0,
            ) {
                Some(k) => {
                    &&& r.ok
                    &&& post.workspaces == pre.workspaces
                    &&& post.active_workspace == pre.active_workspace
                    &&& post.panels@.len() == pre.panels@.len()
                    &&& (forall|j: int|
                        0 <= j < pre.panels@.len() && j != k ==> post.panels@[j]
                            == pre.panels@[j])
                    &&& post.panels@[k]@ == (SpecPanel {
                        custom_title: Some(title@),
                        ..pre.panels@[k]@
                    })
                },
                None => !r.ok && post == pre && (r.error matches Some(e) && e@
                    == not_found_text(terminal@)),
            },
            Request::TermDesc { terminal, description } => match spec_find_panel(
                pre.panels@,
                terminal@,
                0,
            ) {
                Some(k) => {
                    &&& r.ok
                    &&& post.workspaces == pre.workspaces
                    &&& post.active_workspace == pre.active_workspace
                    &&& post.panels@.len() == pre.panels@.len()
                    &&& (forall|j: int|
                        0 <= j < pre.panels@.len() && j != k ==> post.panels@[j]
                            == pre.panels@[j])
                    &&& post.panels@[k]@ == (SpecPanel {
                        cli_description: if description@.len() == 0 {
                            None
                        } else {
                            Some(description@)
                        },
                        ..pre.panels@[k]@
                    })
                },
                None => !r.ok && post == pre && (r.error matches Some(e) && e@
                    == not_found_text(terminal@)),
            },
            Request::TermIcon { terminal, icon } => match spec_find_panel(
                pre.panels@,
                terminal@,
                0,
            ) {
                Some(k) => {
                    &&& r.ok
                    &&& post.workspaces == pre.workspaces
                    &&& post.active_workspace == pre.active_workspace
                    &&& post.panels@.len() == pre.panels@.len()
                    &&& (forall|j: int|
                        0 <= j < pre.panels@.len() && j != k ==> post.panels@[j]
                            == pre.panels@[j])
                    &&& post.panels@[k]@ == (SpecPanel {
                        icon: if icon@.len() == 0 {
                            None
                        } else {
                            Some(icon@)
                        },
                        ..pre.panels@[k]@
                    })
                },
                None => !r.ok && post == pre && (r.error matches Some(e) && e@
                    == not_found_text(terminal@)),
            },
            Request::TermNotify { terminal } => match spec_find_panel(
                pre.panels@,
                terminal@,
                0,
            ) {
                Some(k) => {
                    &&& r.ok
                    &&& post.workspaces == pre.workspaces
                    &&& post.active_workspace == pre.active_workspace
                    &&& post.panels@.len() == pre.panels@.len()
                    &&& (forall|j: int|
                        0 <= j < pre.panels@.len() && j != k ==> post.panels@[j]
                            == pre.panels@[j])
                    &&& post.panels@[k]@ == (SpecPanel {
                        notified: true,
                        ..pre.panels@[k]@
                    })
                },
                None => !r.ok && post == pre && (r.error matches Some(e) && e@
                    == not_found_text(terminal@)),
            },
            Request::TermToWorkspace { terminal, workspace_name } => match spec_find_panel(
                pre.panels@,
                terminal@,
                0,
            ) {
                Some(k) => {
                    let pid = pre.panels@[k].internal_id;
                    &&& r.ok
                    &&& post.panels == pre.panels
                    &&& (exists|t: int|
                        {
                            &&& 0 <= t < post.workspaces@.len()
                            &&& (#[trigger] post.workspaces@[t]).name@
                                == workspace_name@
                            &&& post.workspaces@[t].panel_order@.len() > 0
                            &&& post.workspaces@[t].panel_order@.contains(pid)
                            &&& post.active_workspace == t
                        })
                    &&& (forall|w: int, p: int|
                        0 <= w < post.workspaces@.len() && 0 <= p < post.workspaces@[w].panel_order@.len() && #[trigger] post.workspaces@[w].panel_order@[p] == pid ==> post.workspaces@[w].name@ == workspace_name@)
                },
                None => !r.ok && post == pre && (r.error matches Some(e) && e@
                    == not_found_text(terminal@)),
            },
        }
}

/// A batch of requests applied in order: each request steps the state by
/// `apply_request_rel` and contributes exactly one reply, at its own
/// position.
pub open spec fn apply_all_rel(
    pre: SessionStore,
    reqs: Seq<Request>,
    post: SessionStore,
    rs: Seq<Response>,
) -> bool
    decreases reqs.len(),
{
    &&& rs.len() == reqs.len()
    &&& if reqs.len() == 0 {
        post == pre
    } else {
        exists|mid: SessionStore|
            #[trigger] apply_request_rel(pre, reqs[0], mid, rs[0]) && apply_all_rel(
                mid,
                reqs.drop_first(),
                post,
                rs.drop_first(),
            )
    }
}

/// Extending an applied batch by one more applied request extends the
/// chain.
proof fn lemma_apply_all_snoc(
    pre: SessionStore,
    reqs: Seq<Request>,
    mid: SessionStore,
    rs: Seq<Response>,
    req: Request,
    post: SessionStore,
    resp: Response,
)
    requires
        apply_all_rel(pre, reqs, mid, rs),
        apply_request_rel(mid, req, post, resp),
    ensures
        apply_all_rel(pre, reqs.push(req), post, rs.push(resp)),
    decreases reqs.len(),
{
    let reqs2 = reqs.push(req);
    let rs2 = rs.push(resp);
    assert(reqs2[0] == if reqs.len() == 0 { req } else { reqs[0] });
    assert(rs2[0] == if rs.len() == 0 { resp } else { rs[0] });
    if reqs.len() == 0 {
        assert(mid == pre);
        assert(reqs2.drop_first() =~= Seq::<Request>::empty());
        assert(rs2.drop_first() =~= Seq::<Response>::empty());
        assert(apply_all_rel(post, reqs2.drop_first(), post, rs2.drop_first()));
        assert(apply_request_rel(pre, reqs2[0], post, rs2[0]));
    } else {
        let m1 = choose|m1: SessionStore|
            #[trigger] apply_request_rel(pre, reqs[0], m1, rs[0]) && apply_all_rel(
                m1,
                reqs.drop_first(),
                mid,
                rs.drop_first(),
            );
        lemma_apply_all_snoc(m1, reqs.drop_first(), mid, rs.drop_first(), req, post, resp);
        assert(reqs2.drop_first() =~= reqs.drop_first().push(req));
        assert(rs2.drop_first() =~= rs.drop_first().push(resp));
        assert(apply_request_rel(pre, reqs2[0], m1, rs2[0]));
    }
}


} // verus!
