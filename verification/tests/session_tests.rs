use manse::perf::PerfStats;
use manse::protocol::Request;
use manse::pty::decode_wait_status;
use manse::pty::redraw_sizes;
use manse::pty::ChildEvent;
use manse::snapshot::STATE_VERSION;
use manse::store::SessionStore;

fn store_with_panels(n: u64) -> SessionStore {
    let mut store = SessionStore::new();
    for k in 0..n {
        store.create_panel(format!("term-{:012}", k), 1000, 10 + k as i32, 100 + k as u32, None);
    }
    store
}

#[test]
fn ping_leaves_state_untouched() {
    let mut store = store_with_panels(1);
    let before_len = store.panels.len();
    let r = store.apply_request(&Request::Ping);
    assert!(r.ok);
    assert!(r.error.is_none());
    assert_eq!(store.panels.len(), before_len);
}

#[test]
fn many_pings_each_get_one_ok_reply() {
    let mut store = SessionStore::new();
    let reqs = vec![Request::Ping, Request::Ping, Request::Ping, Request::Ping, Request::Ping];
    let n = reqs.len();
    let replies = store.handle_all(&reqs);
    assert_eq!(replies.len(), n);
    for r in &replies {
        assert!(r.ok);
    }
}

#[test]
fn rename_unknown_terminal_fails() {
    let mut store = store_with_panels(1);
    let r = store.apply_request(&Request::TermRename {
        terminal: "term-nope".to_string(),
        title: "x".to_string(),
    });
    assert!(!r.ok);
    assert_eq!(r.error.as_deref(), Some("Terminal not found: term-nope"));
}

#[test]
fn rename_sets_custom_title() {
    let mut store = store_with_panels(1);
    let id = store.panels[0].external_id.clone();
    let r = store.apply_request(&Request::TermRename {
        terminal: id,
        title: "my build".to_string(),
    });
    assert!(r.ok);
    assert_eq!(store.panels[0].custom_title.as_deref(), Some("my build"));
    assert_eq!(store.panels[0].display_title(), "my build");
}

#[test]
fn empty_description_clears_it() {
    let mut store = store_with_panels(1);
    let id = store.panels[0].external_id.clone();
    let r = store.apply_request(&Request::TermDesc {
        terminal: id.clone(),
        description: "work".to_string(),
    });
    assert!(r.ok);
    assert_eq!(store.panels[0].cli_description.as_deref(), Some("work"));
    let r = store.apply_request(&Request::TermDesc {
        terminal: id,
        description: String::new(),
    });
    assert!(r.ok);
    assert!(store.panels[0].cli_description.is_none());
}

#[test]
fn notify_marks_panel() {
    let mut store = store_with_panels(2);
    let id = store.panels[1].external_id.clone();
    let r = store.apply_request(&Request::TermNotify { terminal: id });
    assert!(r.ok);
    assert!(store.panels[1].notified);
    assert!(!store.panels[0].notified);
}

#[test]
fn move_creates_workspace_and_activates_it() {
    let mut store = store_with_panels(2);
    let id = store.panels[1].external_id.clone();
    let r = store.apply_request(&Request::TermToWorkspace {
        terminal: id,
        workspace_name: "research".to_string(),
    });
    assert!(r.ok);
    let active = store.active_workspace;
    assert_eq!(store.workspaces[active].name, "research");
    assert_eq!(
        store.workspaces[active].panel_order,
        vec![store.panels[1].internal_id]
    );
    for (w, ws) in store.workspaces.iter().enumerate() {
        if w != active {
            assert!(!ws.panel_order.contains(&store.panels[1].internal_id));
        }
    }
}

#[test]
fn cleanup_drops_empty_workspaces_but_keeps_default() {
    let mut store = store_with_panels(1);
    store.add_workspace("scratch".to_string());
    store.cleanup_empty_workspaces();
    assert_eq!(store.workspaces.len(), 1);
    assert_eq!(store.workspaces[0].name, "default");
}

#[test]
fn snapshot_of_store_round_trips() {
    let mut store = store_with_panels(3);
    let id = store.panels[2].external_id.clone();
    store.apply_request(&Request::TermToWorkspace {
        terminal: id,
        workspace_name: "side".to_string(),
    });
    let snap = store.to_persisted_state();
    assert_eq!(snap.version, STATE_VERSION);
    let text = manse::snapshot::encode_state(&snap);
    let back = manse::snapshot::decode_state(&text).unwrap();
    assert_eq!(back.next_id, snap.next_id);
    assert_eq!(back.workspaces.len(), snap.workspaces.len());
}

#[test]
fn restore_panel_keeps_metadata() {
    let mut store = SessionStore::new();
    let term = manse::snapshot::PersistedTerminal {
        internal_id: 40,
        external_id: "term-BBBBBBBBBBBB".to_string(),
        pty_fd: 11,
        pty_pid: 777,
        width_permille: 667,
        title: "vim".to_string(),
        custom_title: Some("editor".to_string()),
        description: "notes".to_string(),
        cli_description: None,
        icon: Some("✏️".to_string()),
        cwd: Some("/src".to_string()),
    };
    let id = store.restore_panel(&term);
    assert_eq!(store.panels.len(), 1);
    let p = &store.panels[0];
    assert_eq!(p.internal_id, id);
    assert_eq!(p.external_id, "term-BBBBBBBBBBBB");
    assert_eq!(p.pty_fd, 11);
    assert_eq!(p.pty_pid, 777);
    assert_eq!(p.custom_title.as_deref(), Some("editor"));
    assert_eq!(store.workspaces[0].panel_order, vec![id]);
}

#[test]
fn wait_status_decodes_exit_code_seven() {
    let status = 7 << 8;
    assert_eq!(decode_wait_status(status), Some(ChildEvent::Exited(Some(7))));
}

#[test]
fn wait_status_decodes_signal_death() {
    assert_eq!(decode_wait_status(9), Some(ChildEvent::Exited(None)));
    assert_eq!(decode_wait_status(15), Some(ChildEvent::Exited(None)));
}

#[test]
fn wait_status_ignores_stops() {
    assert_eq!(decode_wait_status(0x137f), None);
}

#[test]
fn redraw_toggles_then_restores_size() {
    let sizes = redraw_sizes(80, 24);
    assert_eq!(sizes, vec![(79, 24), (80, 24)]);
    let tiny = redraw_sizes(1, 24);
    assert_eq!(tiny, vec![(2, 24), (1, 24)]);
}

#[test]
fn perf_counters_increment() {
    let mut p = PerfStats::new();
    p.on_pty_event();
    p.on_pty_event();
    p.on_ipc_request();
    p.on_minimized();
    p.on_scroll_anim();
    assert_eq!(p.pty_events, 2);
    assert_eq!(p.ipc_requests, 1);
    assert_eq!(p.minimized_frames, 1);
    assert_eq!(p.scroll_animation_frames, 1);
    assert_eq!(p.frame_count, 0);
}

#[test]
fn new_panel_appears_after_the_focused_slot() {
    let mut store = store_with_panels(3);
    // Focus stays on the first panel; a new panel lands right after it.
    let first = store.workspaces[0].panel_order[0];
    let id = store.create_panel("term-CCCCCCCCCCCC".to_string(), 1000, 20, 900, None);
    assert_eq!(store.workspaces[0].panel_order[0], first);
    assert_eq!(store.workspaces[0].panel_order[1], id);
    assert_eq!(store.workspaces[0].panel_order.len(), 4);
}

#[test]
fn moving_back_to_the_same_workspace_only_activates_it() {
    let mut store = store_with_panels(2);
    let id = store.panels[0].external_id.clone();
    let before = store.workspaces[0].panel_order.clone();
    let r = store.apply_request(&Request::TermToWorkspace {
        terminal: id,
        workspace_name: "default".to_string(),
    });
    assert!(r.ok);
    assert_eq!(store.active_workspace, 0);
    assert_eq!(store.workspaces[0].panel_order, before);
}

#[test]
fn removing_a_session_clears_every_strip() {
    let mut store = store_with_panels(2);
    let gone = store.workspaces[0].panel_order[0];
    store.remove_panel(gone);
    assert_eq!(store.panels.len(), 1);
    for ws in &store.workspaces {
        assert!(!ws.panel_order.contains(&gone));
    }
}

#[test]
fn redraw_handles_the_largest_width() {
    // At the top of the u16 range the toggle shrinks by one column.
    let sizes = redraw_sizes(65535, 24);
    assert_eq!(sizes, vec![(65534, 24), (65535, 24)]);
}

#[test]
fn mixed_batches_apply_every_request() {
    let mut store = store_with_panels(1);
    let id = store.panels[0].external_id.clone();
    let reqs = vec![
        Request::Ping,
        Request::TermRename {
            terminal: id.clone(),
            title: "renamed in a batch".to_string(),
        },
        Request::TermNotify { terminal: id },
    ];
    let replies = store.handle_all(&reqs);
    assert_eq!(replies.len(), 3);
    assert!(replies.iter().all(|r| r.ok));
    assert_eq!(store.panels[0].custom_title.as_deref(), Some("renamed in a batch"));
    assert!(store.panels[0].notified);
}

#[test]
fn focus_setting_is_pulled_into_range() {
    let mut store = store_with_panels(3);
    store.set_focus(0, 2);
    assert_eq!(store.workspaces[0].focused_index, 2);
    store.set_focus(0, 9);
    assert_eq!(store.workspaces[0].focused_index, 2);
    store.bump_next_id(50);
    assert_eq!(store.next_id, 50);
    store.bump_next_id(7);
    assert_eq!(store.next_id, 50);
}
