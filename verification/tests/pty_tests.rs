use manse::pty::PtyHandle;
use manse::pty::WindowSize;

fn size(cols: u16, rows: u16) -> WindowSize {
    WindowSize {
        rows,
        cols,
        cell_width: 1,
        cell_height: 1,
    }
}

#[test]
fn open_reports_requested_size() {
    let (handle, _user, user_fd) = PtyHandle::open(size(80, 24)).expect("pty allocation");
    assert_eq!(handle.size(), (80, 24));
    assert!(handle.pty_fd() >= 0);
    assert!(user_fd >= 0);
}

#[test]
fn resize_then_size_query_reports_new_size() {
    let (mut handle, _user, _user_fd) = PtyHandle::open(size(80, 24)).expect("pty allocation");
    handle.resize(size(132, 43)).expect("resize on a fresh pty");
    assert_eq!(handle.size(), (132, 43));
    // The kernel agrees with the recorded size.
    let read_back = handle.refresh_size().expect("size query on a fresh pty");
    assert_eq!(read_back, (132, 43));
    assert_eq!(handle.size(), (132, 43));
}

#[test]
fn validate_sees_open_descriptor() {
    let (handle, _user, _user_fd) = PtyHandle::open(size(80, 24)).expect("pty allocation");
    let (fd_ok, _pid_ok) = handle.validate();
    assert!(fd_ok);
}

#[test]
fn detach_hands_back_descriptor_and_pid() {
    let (handle, _user, _user_fd) = PtyHandle::open(size(80, 24)).expect("pty allocation");
    let fd = handle.pty_fd();
    let pid = handle.pty_pid();
    let (raw_fd, raw_pid) = handle.into_raw_parts();
    assert_eq!(raw_fd, fd);
    assert_eq!(raw_pid, pid);
}

#[test]
fn restored_handle_matches_detached_pair() {
    let (handle, user, user_fd) = PtyHandle::open(size(100, 30)).expect("pty allocation");
    let recorded = handle.size();
    let pid = handle.pty_pid();
    let (_raw_fd, raw_pid) = handle.into_raw_parts();
    // Adopt the user-side descriptor as a stand-in owned descriptor; the
    // restored handle reads its descriptor value from the descriptor itself.
    let restored = PtyHandle::restore_from_raw(user, pid, recorded);
    assert_eq!(restored.pty_fd(), user_fd);
    assert_eq!(restored.pty_pid(), raw_pid);
    assert_eq!(restored.size(), recorded);
}

#[test]
fn restored_handle_polls_nothing_for_a_foreign_pid() {
    // pid 1 is never this process's child, so the non-blocking wait has
    // nothing to report: the restored handle stays quiet instead of
    // inventing an exit.
    let (_handle, user, user_fd) = PtyHandle::open(size(80, 24)).expect("pty allocation");
    let _ = user_fd;
    let mut restored = PtyHandle::restore_from_raw(user, 1, (80, 24));
    assert!(restored.poll_child_event().is_none());
}

#[test]
fn teardown_of_a_restored_handle_only_closes_the_descriptor() {
    // A restored handle owns no child object, so teardown signals and
    // reaps nothing; it must return rather than wait on a foreign pid.
    let (_handle, user, _user_fd) = PtyHandle::open(size(80, 24)).expect("pty allocation");
    let restored = PtyHandle::restore_from_raw(user, 1, (80, 24));
    restored.teardown();
}

#[test]
fn reads_report_at_most_the_buffer_length() {
    let (mut handle, _user, _user_fd) = PtyHandle::open(size(80, 24)).expect("pty allocation");
    handle.set_nonblocking().expect("status flags on a fresh pty");
    let mut buf = vec![0u8; 64];
    // Nothing was written to the user side, so a nonblocking read reports
    // an error (nothing available) rather than blocking.
    match handle.read(&mut buf) {
        Ok(n) => assert!(n <= buf.len()),
        Err(_) => {}
    }
    assert_eq!(buf.len(), 64);
}
