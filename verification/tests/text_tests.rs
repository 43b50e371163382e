use manse::icons::detect_icon;
use manse::icons::IconConfig;
use manse::icons::IconPattern;
use manse::ids::is_valid_terminal_id;
use manse::ids::new_terminal_id;
use manse::layout::build_follow_targets;
use manse::layout::index_to_letter;
use manse::layout::letter_to_index;
use manse::ssh::parse_ssh_args;
use manse::ssh::SshSession;

fn test_config() -> IconConfig {
    IconConfig {
        default: "🖥️".to_string(),
        patterns: vec![
            IconPattern {
                match_text: "helix".to_string(),
                icon: "🤖".to_string(),
            },
            IconPattern {
                match_text: "nvim".to_string(),
                icon: "✏️".to_string(),
            },
            IconPattern {
                match_text: "neovim".to_string(),
                icon: "✏️".to_string(),
            },
        ],
    }
}

#[test]
fn parse_simple_host() {
    let s = parse_ssh_args("ssh mybox").unwrap();
    assert_eq!(s.host, "mybox");
    assert!(s.user.is_none());
    assert!(s.port.is_none());
}

#[test]
fn parse_user_at_host() {
    let s = parse_ssh_args("ssh alice@prod-server.example.com").unwrap();
    assert_eq!(s.user.as_deref(), Some("alice"));
    assert_eq!(s.host, "prod-server.example.com");
    assert!(s.port.is_none());
}

#[test]
fn parse_with_port() {
    let s = parse_ssh_args("ssh -p 2222 root@box").unwrap();
    assert_eq!(s.user.as_deref(), Some("root"));
    assert_eq!(s.host, "box");
    assert_eq!(s.port, Some(2222));
}

#[test]
fn parse_with_identity_file() {
    let s = parse_ssh_args("ssh -i ~/.ssh/id_ed25519 deploy@staging").unwrap();
    assert_eq!(s.user.as_deref(), Some("deploy"));
    assert_eq!(s.host, "staging");
}

#[test]
fn parse_with_mixed_flags() {
    let s = parse_ssh_args("ssh -A -o StrictHostKeyChecking=no -p 22 me@host").unwrap();
    assert_eq!(s.user.as_deref(), Some("me"));
    assert_eq!(s.host, "host");
    assert_eq!(s.port, Some(22));
}

#[test]
fn parse_full_path_binary() {
    let s = parse_ssh_args("/usr/bin/ssh user@box").unwrap();
    assert_eq!(s.user.as_deref(), Some("user"));
    assert_eq!(s.host, "box");
}

#[test]
fn display_user_host_port() {
    let s = SshSession {
        user: Some("alice".into()),
        host: "prod".into(),
        port: Some(2222),
        full_command: String::new(),
    };
    assert_eq!(s.display_string(), "alice@prod:2222");
}

#[test]
fn display_host_only() {
    let s = SshSession {
        user: None,
        host: "mybox".into(),
        port: None,
        full_command: String::new(),
    };
    assert_eq!(s.display_string(), "mybox");
}

#[test]
fn detect_claude() {
    let config = test_config();
    assert_eq!(detect_icon("Helix Editor", &config), "🤖");
    assert_eq!(detect_icon("helix", &config), "🤖");
    assert_eq!(detect_icon("HELIX", &config), "🤖");
    assert_eq!(detect_icon("Working with Helix", &config), "🤖");
}

#[test]
fn detect_neovim() {
    let config = test_config();
    assert_eq!(detect_icon("nvim", &config), "✏️");
    assert_eq!(detect_icon("NVIM", &config), "✏️");
    assert_eq!(detect_icon("neovim", &config), "✏️");
    assert_eq!(detect_icon("Neovim", &config), "✏️");
    assert_eq!(detect_icon("nvim src/main.rs", &config), "✏️");
}

#[test]
fn no_match_returns_default() {
    let config = test_config();
    assert_eq!(detect_icon("bash", &config), "🖥️");
    assert_eq!(detect_icon("Terminal", &config), "🖥️");
    assert_eq!(detect_icon("zsh", &config), "🖥️");
    assert_eq!(detect_icon("", &config), "🖥️");
}

#[test]
fn pattern_order_matters() {
    let config = IconConfig {
        default: "🖥️".to_string(),
        patterns: vec![
            IconPattern {
                match_text: "special".to_string(),
                icon: "⭐".to_string(),
            },
            IconPattern {
                match_text: "special".to_string(),
                icon: "❌".to_string(),
            },
        ],
    };
    assert_eq!(detect_icon("special case", &config), "⭐");
}

#[test]
fn custom_patterns() {
    let config = IconConfig {
        default: "📦".to_string(),
        patterns: vec![
            IconPattern {
                match_text: "docker".to_string(),
                icon: "🐳".to_string(),
            },
            IconPattern {
                match_text: "python".to_string(),
                icon: "🐍".to_string(),
            },
        ],
    };
    assert_eq!(detect_icon("docker compose up", &config), "🐳");
    assert_eq!(detect_icon("python script.py", &config), "🐍");
    assert_eq!(detect_icon("cargo build", &config), "📦");
}

#[test]
fn terminal_id_has_correct_prefix() {
    let id = new_terminal_id();
    assert!(id.starts_with("term-"), "ID should start with 'term-': {}", id);
}

#[test]
fn terminal_id_has_correct_length() {
    let id = new_terminal_id();
    assert_eq!(id.len(), 17, "ID should be 17 chars: {}", id);
}

#[test]
fn terminal_id_suffix_is_alphanumeric() {
    let id = new_terminal_id();
    let suffix = &id[5..];
    assert!(
        suffix.chars().all(|c| c.is_ascii_alphanumeric()),
        "Suffix should be alphanumeric: {}",
        suffix
    );
}

#[test]
fn terminal_ids_are_unique() {
    let id1 = new_terminal_id();
    let id2 = new_terminal_id();
    assert_ne!(id1, id2, "IDs should be unique");
}

#[test]
fn is_valid_terminal_id_accepts_valid() {
    let id = new_terminal_id();
    assert!(is_valid_terminal_id(&id));
}

#[test]
fn is_valid_terminal_id_rejects_wrong_prefix() {
    assert!(!is_valid_terminal_id("foo-123456789012"));
}

#[test]
fn is_valid_terminal_id_rejects_wrong_length() {
    assert!(!is_valid_terminal_id("term-short"));
    assert!(!is_valid_terminal_id("term-waytoolongtobevalid"));
}

#[test]
fn is_valid_terminal_id_rejects_invalid_chars() {
    assert!(!is_valid_terminal_id("term-12345678901!"));
    assert!(!is_valid_terminal_id("term-12345678901-"));
}

#[test]
fn follow_targets_empty() {
    let targets = build_follow_targets(&vec![]);
    assert!(targets.is_empty());
}

#[test]
fn follow_targets_single_workspace() {
    let targets = build_follow_targets(&vec![3]);
    assert_eq!(targets, vec![(0, 0), (0, 1), (0, 2)]);
}

#[test]
fn follow_targets_multiple_workspaces() {
    let targets = build_follow_targets(&vec![2, 3, 1]);
    assert_eq!(targets, vec![(0, 0), (0, 1), (1, 0), (1, 1), (1, 2), (2, 0)]);
}

#[test]
fn follow_targets_caps_at_26() {
    let targets = build_follow_targets(&vec![30]);
    assert_eq!(targets.len(), 26);
    assert_eq!(targets[0], (0, 0));
    assert_eq!(targets[25], (0, 25));
}

#[test]
fn follow_targets_caps_across_workspaces() {
    let targets = build_follow_targets(&vec![10, 10, 10]);
    assert_eq!(targets.len(), 26);
    assert_eq!(targets[9], (0, 9));
    assert_eq!(targets[10], (1, 0));
    assert_eq!(targets[19], (1, 9));
    assert_eq!(targets[20], (2, 0));
    assert_eq!(targets[25], (2, 5));
}

#[test]
fn index_to_letter_valid() {
    assert_eq!(index_to_letter(0), Some('a'));
    assert_eq!(index_to_letter(25), Some('z'));
    assert_eq!(index_to_letter(12), Some('m'));
}

#[test]
fn index_to_letter_invalid() {
    assert_eq!(index_to_letter(26), None);
    assert_eq!(index_to_letter(100), None);
}

#[test]
fn letter_to_index_valid() {
    assert_eq!(letter_to_index('a'), Some(0));
    assert_eq!(letter_to_index('z'), Some(25));
    assert_eq!(letter_to_index('A'), Some(0));
    assert_eq!(letter_to_index('Z'), Some(25));
}

#[test]
fn letter_to_index_invalid() {
    assert_eq!(letter_to_index('0'), None);
    assert_eq!(letter_to_index('!'), None);
}

#[test]
fn ssh_found_through_the_process_tree() {
    let table = "  PID  PPID COMM            ARGS\n\
                 100     1 bash            -bash\n\
                 200   100 tmux            tmux new -s work\n\
                 300   200 ssh             ssh -p 2200 dev@build-box\n\
                 400     1 bash            -bash\n";
    let s = manse::ssh::detect_ssh_in_ps_output(table, 100).expect("the grandchild runs ssh");
    assert_eq!(s.user.as_deref(), Some("dev"));
    assert_eq!(s.host, "build-box");
    assert_eq!(s.port, Some(2200));
    // The walk starts at the given root: a sibling tree finds nothing.
    assert!(manse::ssh::detect_ssh_in_ps_output(table, 400).is_none());
}

#[test]
fn ssh_detection_ignores_unrelated_rows_and_garbage() {
    let table = "  PID  PPID COMM            ARGS\n\
                 not a row at all\n\
                 500     1 vim             vim notes.txt\n\
                 501   500 /usr/bin/ssh    /usr/bin/ssh host-only\n";
    let s = manse::ssh::detect_ssh_in_ps_output(table, 500).expect("the child runs ssh");
    assert!(s.user.is_none());
    assert_eq!(s.host, "host-only");
    assert!(manse::ssh::detect_ssh_in_ps_output("", 1).is_none());
}
