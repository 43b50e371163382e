use manse::snapshot::decode_state;
use manse::snapshot::encode_state;
use manse::snapshot::parse_state;
use manse::snapshot::PersistedState;
use manse::snapshot::PersistedTerminal;
use manse::snapshot::PersistedWorkspace;
use manse::snapshot::PersistError;
use manse::snapshot::STATE_VERSION;
use manse::validate::validate_terminals;

fn sample_terminal(id: u64) -> PersistedTerminal {
    PersistedTerminal {
        internal_id: id,
        external_id: format!("term-{:012}", id),
        pty_fd: 7 + id as i32,
        pty_pid: 4000 + id as u32,
        width_permille: 500,
        title: "cargo build".to_string(),
        custom_title: if id % 2 == 0 {
            Some("custom \"name\"".to_string())
        } else {
            None
        },
        description: "a description\nwith a newline".to_string(),
        cli_description: None,
        icon: Some("🔥".to_string()),
        cwd: Some("/tmp/work dir".to_string()),
    }
}

fn sample_state() -> PersistedState {
    PersistedState {
        version: STATE_VERSION,
        workspaces: vec![
            PersistedWorkspace {
                name: "default".to_string(),
                panel_order: vec![0, 2],
                focused_index: 1,
                terminals: vec![sample_terminal(0), sample_terminal(2)],
            },
            PersistedWorkspace {
                name: "work".to_string(),
                panel_order: vec![1],
                focused_index: 0,
                terminals: vec![sample_terminal(1)],
            },
            PersistedWorkspace {
                name: "empty".to_string(),
                panel_order: vec![],
                focused_index: 0,
                terminals: vec![],
            },
        ],
        active_workspace: 1,
        next_id: 3,
    }
}

fn assert_states_equal(a: &PersistedState, b: &PersistedState) {
    assert_eq!(a.version, b.version);
    assert_eq!(a.active_workspace, b.active_workspace);
    assert_eq!(a.next_id, b.next_id);
    assert_eq!(a.workspaces.len(), b.workspaces.len());
    for (wa, wb) in a.workspaces.iter().zip(b.workspaces.iter()) {
        assert_eq!(wa.name, wb.name);
        assert_eq!(wa.panel_order, wb.panel_order);
        assert_eq!(wa.focused_index, wb.focused_index);
        assert_eq!(wa.terminals.len(), wb.terminals.len());
        for (ta, tb) in wa.terminals.iter().zip(wb.terminals.iter()) {
            assert_eq!(ta.internal_id, tb.internal_id);
            assert_eq!(ta.external_id, tb.external_id);
            assert_eq!(ta.pty_fd, tb.pty_fd);
            assert_eq!(ta.pty_pid, tb.pty_pid);
            assert_eq!(ta.width_permille, tb.width_permille);
            assert_eq!(ta.title, tb.title);
            assert_eq!(ta.custom_title, tb.custom_title);
            assert_eq!(ta.description, tb.description);
            assert_eq!(ta.cli_description, tb.cli_description);
            assert_eq!(ta.icon, tb.icon);
            assert_eq!(ta.cwd, tb.cwd);
        }
    }
}

#[test]
fn snapshot_round_trips_three_workspaces() {
    let state = sample_state();
    let text = encode_state(&state);
    let back = parse_state(&text).expect("canonical snapshot must parse");
    assert_states_equal(&state, &back);
}

#[test]
fn snapshot_round_trips_empty_state() {
    let state = PersistedState {
        version: STATE_VERSION,
        workspaces: vec![],
        active_workspace: 0,
        next_id: 0,
    };
    let text = encode_state(&state);
    let back = parse_state(&text).unwrap();
    assert_states_equal(&state, &back);
}

#[test]
fn decode_accepts_matching_version() {
    let state = sample_state();
    let text = encode_state(&state);
    let back = decode_state(&text).expect("matching version must load");
    assert_states_equal(&state, &back);
}

#[test]
fn decode_rejects_version_mismatch() {
    let mut state = sample_state();
    state.version = STATE_VERSION + 1;
    let text = encode_state(&state);
    match decode_state(&text) {
        Err(PersistError::VersionMismatch { expected, found }) => {
            assert_eq!(expected, STATE_VERSION);
            assert_eq!(found, STATE_VERSION + 1);
        }
        _ => panic!("a version mismatch must be reported as such"),
    }
}

#[test]
fn decode_rejects_garbage() {
    assert!(matches!(decode_state("not a snapshot"), Err(PersistError::Parse)));
    assert!(matches!(decode_state(""), Err(PersistError::Parse)));
    assert!(matches!(
        decode_state("{\"version\":2,\"workspaces\":["),
        Err(PersistError::Parse)
    ));
}

#[test]
fn snapshot_wire_form_is_stable() {
    let state = PersistedState {
        version: STATE_VERSION,
        workspaces: vec![PersistedWorkspace {
            name: "default".to_string(),
            panel_order: vec![5],
            focused_index: 0,
            terminals: vec![PersistedTerminal {
                internal_id: 5,
                external_id: "term-AAAAAAAAAAAA".to_string(),
                pty_fd: 9,
                pty_pid: 1234,
                width_permille: 1000,
                title: "Terminal".to_string(),
                custom_title: None,
                description: String::new(),
                cli_description: None,
                icon: None,
                cwd: None,
            }],
        }],
        active_workspace: 0,
        next_id: 6,
    };
    let text = encode_state(&state);
    assert_eq!(
        text,
        "{\"version\":2,\"workspaces\":[{\"name\":\"default\",\"panel_order\":[5],\
         \"focused_index\":0,\"terminals\":[{\"internal_id\":5,\
         \"external_id\":\"term-AAAAAAAAAAAA\",\"pty_fd\":9,\"pty_pid\":1234,\
         \"width_permille\":1000,\"title\":\"Terminal\",\"custom_title\":null,\
         \"description\":\"\",\"cli_description\":null,\"icon\":null,\"cwd\":null}]}],\
         \"active_workspace\":0,\"next_id\":6}"
    );
}

#[test]
fn validation_reports_dead_descriptors_and_processes() {
    let terms = vec![sample_terminal(0), sample_terminal(1), sample_terminal(2)];
    let probes = vec![(false, true), (true, false), (true, true)];
    let errors = validate_terminals(&terms, &probes);
    assert_eq!(errors.len(), 2);
    assert_eq!(errors[0].0, 0);
    assert!(matches!(errors[0].1, PersistError::InvalidFd(7)));
    assert_eq!(errors[1].0, 1);
    assert!(matches!(errors[1].1, PersistError::ProcessNotRunning(4001)));
}
