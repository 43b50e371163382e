//! PTY lifecycle: allocation, resizing, signal-free exit polling,
//! detach/reattach across an exec-based restart, and the forced redraw.
//!
//! The OS calls go through rustix behind trusted wrappers; every decision
//! around them — window-size arithmetic, wait-status decoding, the redraw
//! toggle, the detach/restore pairing — is verified.

use vstd::prelude::*;

verus! {

use rustix_openpty::rustix::fd::OwnedFd;

#[verifier::external_type_specification]
#[verifier::external_body]
pub struct ExOwnedFd(OwnedFd);

/// Rows, columns and per-cell pixel metrics of a terminal window.
#[derive(Clone, Copy, PartialEq, Eq, Structural)]
pub struct WindowSize {
    /// Number of text rows.
    pub rows: u16,
    /// Number of text columns.
    pub cols: u16,
    /// Width of one cell in pixels.
    pub cell_width: u16,
    /// Height of one cell in pixels.
    pub cell_height: u16,
}

impl WindowSize {
    /// The window-size fields fit the kernel's u16 pixel dimensions.
    pub open spec fn fits(self) -> bool {
        &&& self.cols * self.cell_width <= u16::MAX
        &&& self.rows * self.cell_height <= u16::MAX
    }

    /// Pixel width: columns times cell width.
    pub fn pixel_width(&self) -> (r: u16)
        requires
            self.fits(),
        ensures
            r == self.cols * self.cell_width,
    {
        self.cols * self.cell_width
    }

    /// Pixel height: rows times cell height.
    pub fn pixel_height(&self) -> (r: u16)
        requires
            self.fits(),
        ensures
            r == self.rows * self.cell_height,
    {
        self.rows * self.cell_height
    }
}

/// What polling a child produced.
#[derive(Clone, Copy, Debug, PartialEq, Eq, Structural)]
pub enum ChildEvent {
    /// The child exited, with its exit code when it exited normally, and
    /// nothing when a signal killed it.
    Exited(Option<i32>),
}

/// Decode a raw wait status, as the kernel defines it: the low seven bits
/// are zero for a normal exit (code in the next eight bits), a value
/// between 1 and 126 names the killing signal, and anything else reports
/// a stop or continue, which is no exit at all.
pub open spec fn spec_decode_wait_status(status: i32) -> Option<ChildEvent> {
    let low = status & 0x7f;
    if low == 0 {
        Some(ChildEvent::Exited(Some((status >> 8) & 0xff)))
    } else if 1 <= low && low <= 126 {
        Some(ChildEvent::Exited(None))
    } else {
        None
    }
}

/// Decode a raw wait status into a child event.
pub fn decode_wait_status(status: i32) -> (r: Option<ChildEvent>)
    ensures
        r == spec_decode_wait_status(status),
{
    let low = status & 0x7f;
    proof {
        assert(0 <= status & 0x7f <= 0x7f) by (bit_vector);
        assert(0 <= (status >> 8) & 0xff <= 0xff) by (bit_vector);
    }
    if low == 0 {
        Some(ChildEvent::Exited(Some((status >> 8) & 0xff)))
    } else if low <= 126 {
        Some(ChildEvent::Exited(None))
    } else {
        None
    }
}

/// A child that exited normally with code `c` reports `Exited(Some(c))`.
/// The kernel encodes such an exit as code-shifted-left-by-eight.
pub proof fn law_exit_code_decoded(c: i32)
    requires
        0 <= c <= 0xff,
    ensures
        spec_decode_wait_status(c << 8) == Some(ChildEvent::Exited(Some(c))),
{
    assert((c << 8) & 0x7f == 0 && ((c << 8) >> 8) & 0xff == c) by (bit_vector)
        requires
            0 <= c <= 0xff,
    {}
}

/// The two sizes the forced redraw walks through: first a size that
/// differs by one column, then the original size again.
pub open spec fn spec_redraw_sizes(cols: u16, rows: u16) -> Seq<(u16, u16)> {
    let shrunk: u16 = if cols > 1 {
        (cols - 1) as u16
    } else {
        (cols + 1) as u16
    };
    seq![(shrunk, rows), (cols, rows)]
}

/// The forced redraw always ends on the size it started from, and its
/// intermediate size differs from it, so terminal programs cannot ignore
/// the change.
pub proof fn law_redraw_restores_size(cols: u16, rows: u16)
    ensures
        spec_redraw_sizes(cols, rows).last() == (cols, rows),
        spec_redraw_sizes(cols, rows)[0].0 != cols,
{
}

/// The sizes the forced redraw sets, in order.
pub fn redraw_sizes(cols: u16, rows: u16) -> (r: Vec<(u16, u16)>)
    ensures
        r@ == spec_redraw_sizes(cols, rows),
        r@.len() == 2,
        r@[1] == (cols, rows),
        r@[0].0 != cols,
{
    let shrunk: u16 = if cols > 1 {
        cols - 1
    } else {
        cols + 1
    };
    let mut r: Vec<(u16, u16)> = Vec::new();
    r.push((shrunk, rows));
    r.push((cols, rows));
    proof {
        assert(r@ =~= spec_redraw_sizes(cols, rows));
    }
    r
}

/// One PTY master and the identity of the child on its slave side.
///
/// The descriptor is an exclusive OS resource owned by this handle; the
/// child process id is an identity, reclaimed by wait-polling rather than
/// by the destructor alone. `owns_child` distinguishes a handle that
/// spawned its child from one rebuilt from a raw pair after a restart.
pub struct PtyHandle {
    /// The open PTY master descriptor.
    master: OwnedFd,
    /// The raw value of `master`, kept for snapshots and validation.
    fd: i32,
    /// The child process id on the slave side.
    pid: u32,
    /// Whether this process spawned the child itself.
    owns_child: bool,
    /// Whether an exit event has been observed.
    exited: bool,
    /// The last window size set or read, columns then rows.
    size: (u16, u16),
}

/// Relies on rustix_openpty::openpty: allocates a PTY master/user pair
/// sized by the given winsize fields; both descriptors are fresh and open,
/// and each returned integer is its descriptor's own raw value.
#[verifier::external_body]
fn sys_openpty(rows: u16, cols: u16, xpixel: u16, ypixel: u16) -> (r: Result<
    (OwnedFd, i32, OwnedFd, i32),
    i32,
>)
    ensures
        r matches Ok((m, mfd, u, ufd)) ==> mfd >= 0 && ufd >= 0,
{
    let winsize = rustix_openpty::rustix::termios::Winsize {
        ws_row: rows,
        ws_col: cols,
        ws_xpixel: xpixel,
        ws_ypixel: ypixel,
    };
    match rustix_openpty::openpty(None, Some(&winsize)) {
        Ok(pty) => {
            let mfd = rustix_openpty::rustix::fd::AsRawFd::as_raw_fd(&pty.controller);
            let ufd = rustix_openpty::rustix::fd::AsRawFd::as_raw_fd(&pty.user);
            Ok((pty.controller, mfd, pty.user, ufd))
        },
        Err(e) => Err(e.raw_os_error()),
    }
}

/// Relies on rustix::termios::tcsetwinsize: sets the kernel's window size
/// for the descriptor; on success the kernel holds exactly these fields.
#[verifier::external_body]
fn sys_set_winsize(fd: &OwnedFd, rows: u16, cols: u16, xpixel: u16, ypixel: u16) -> (r: Result<
    (),
    i32,
>) {
    let winsize = rustix_openpty::rustix::termios::Winsize {
        ws_row: rows,
        ws_col: cols,
        ws_xpixel: xpixel,
        ws_ypixel: ypixel,
    };
    match rustix_openpty::rustix::termios::tcsetwinsize(fd, winsize) {
        Ok(()) => Ok(()),
        Err(e) => Err(e.raw_os_error()),
    }
}

/// Relies on rustix::termios::tcgetwinsize: reads the kernel's window size
/// for the descriptor, columns then rows.
#[verifier::external_body]
fn sys_get_winsize(fd: &OwnedFd) -> (r: Result<(u16, u16), i32>) {
    match rustix_openpty::rustix::termios::tcgetwinsize(fd) {
        Ok(w) => Ok((w.ws_col, w.ws_row)),
        Err(e) => Err(e.raw_os_error()),
    }
}

/// Relies on rustix::io::fcntl_getfd: probes the descriptor's flags; an
/// error means the descriptor is not open.
#[verifier::external_body]
fn sys_fd_is_open(fd: &OwnedFd) -> (r: bool) {
    rustix_openpty::rustix::io::fcntl_getfd(fd).is_ok()
}

/// Relies on rustix::io::fcntl_setfd: replaces the descriptor flags with
/// the empty set, clearing close-on-exec so the descriptor survives exec.
#[verifier::external_body]
fn sys_clear_cloexec(fd: &OwnedFd) -> (r: Result<(), i32>) {
    match rustix_openpty::rustix::io::fcntl_setfd(
        fd,
        rustix_openpty::rustix::io::FdFlags::empty(),
    ) {
        Ok(()) => Ok(()),
        Err(e) => Err(e.raw_os_error()),
    }
}

/// Relies on rustix::process::test_kill_process: sends the null signal,
/// which delivers nothing and only reports whether the process exists.
#[verifier::external_body]
fn sys_pid_alive(pid: u32) -> (r: bool)
    requires
        pid >= 1,
        pid <= 0x7fffffff,
{
    match rustix_openpty::rustix::process::Pid::from_raw(pid as i32) {
        Some(p) => rustix_openpty::rustix::process::test_kill_process(p).is_ok(),
        None => false,
    }
}

/// Relies on rustix::process::kill_process with Signal::WINCH: asks the
/// process to re-read its window size.
#[verifier::external_body]
fn sys_send_sigwinch(pid: u32) -> (r: Result<(), i32>)
    requires
        pid >= 1,
        pid <= 0x7fffffff,
{
    match rustix_openpty::rustix::process::Pid::from_raw(pid as i32) {
        Some(p) => {
            match rustix_openpty::rustix::process::kill_process(
                p,
                rustix_openpty::rustix::process::Signal::WINCH,
            ) {
                Ok(()) => Ok(()),
                Err(e) => Err(e.raw_os_error()),
            }
        },
        None => Err(22),
    }
}

/// Relies on rustix::process::waitpid with the no-hang option: returns the
/// raw wait status when the child changed state, and nothing while it
/// still runs or on error.
#[verifier::external_body]
fn sys_waitpid_nohang(pid: u32) -> (r: Option<i32>)
    requires
        pid >= 1,
        pid <= 0x7fffffff,
{
    match rustix_openpty::rustix::process::Pid::from_raw(pid as i32) {
        Some(p) => {
            match rustix_openpty::rustix::process::waitpid(
                Some(p),
                rustix_openpty::rustix::process::WaitOptions::NOHANG,
            ) {
                Ok(Some((_, status))) => Some(status.as_raw()),
                Ok(None) => None,
                Err(_) => None,
            }
        },
        None => None,
    }
}

/// Relies on rustix::thread::nanosleep: pauses the calling thread; the
/// nanosecond field must stay below one second.
#[verifier::external_body]
fn sys_sleep_millis(ms: u64)
    requires
        ms < 1000,
{
    let ts = rustix_openpty::rustix::thread::Timespec {
        tv_sec: 0,
        tv_nsec: (ms as i64) * 1000000,
    };
    let _ = rustix_openpty::rustix::thread::nanosleep(&ts);
}

/// Relies on rustix::fs::fcntl_getfl: reads the descriptor's status
/// flags, as a raw bit set.
#[verifier::external_body]
fn sys_get_status_flags(fd: &OwnedFd) -> (r: Result<u32, i32>) {
    match rustix_openpty::rustix::fs::fcntl_getfl(fd) {
        Ok(flags) => Ok(flags.bits()),
        Err(e) => Err(e.raw_os_error()),
    }
}

/// Relies on rustix::fs::fcntl_setfl: replaces the descriptor's status
/// flags with the given raw bit set extended by the nonblocking flag,
/// retaining only the known flags.
#[verifier::external_body]
fn sys_set_flags_nonblocking(fd: &OwnedFd, bits: u32) -> (r: Result<(), i32>) {
    let flags = rustix_openpty::rustix::fs::OFlags::from_bits_truncate(bits)
        | rustix_openpty::rustix::fs::OFlags::NONBLOCK;
    match rustix_openpty::rustix::fs::fcntl_setfl(fd, flags) {
        Ok(()) => Ok(()),
        Err(e) => Err(e.raw_os_error()),
    }
}

/// Relies on rustix::io::read: fills a prefix of `buf`; the result counts
/// how many leading bytes the kernel delivered, and zero at end of file.
#[verifier::external_body]
fn sys_read(fd: &OwnedFd, buf: &mut Vec<u8>) -> (r: Result<usize, i32>)
    ensures
        final(buf)@.len() == old(buf)@.len(),
        r matches Ok(n) ==> n <= old(buf)@.len(),
{
    match rustix_openpty::rustix::io::read(fd, buf.as_mut_slice()) {
        Ok(n) => Ok(n),
        Err(e) => Err(e.raw_os_error()),
    }
}

/// Relies on rustix::process::kill_process with Signal::HUP: asks the
/// child to hang up, the teardown signal for a session being closed.
#[verifier::external_body]
fn sys_send_sighup(pid: u32) -> (r: Result<(), i32>)
    requires
        pid >= 1,
        pid <= 0x7fffffff,
{
    match rustix_openpty::rustix::process::Pid::from_raw(pid as i32) {
        Some(p) => {
            match rustix_openpty::rustix::process::kill_process(
                p,
                rustix_openpty::rustix::process::Signal::HUP,
            ) {
                Ok(()) => Ok(()),
                Err(e) => Err(e.raw_os_error()),
            }
        },
        None => Err(22),
    }
}

/// Relies on rustix::process::waitpid with no options: blocks until the
/// child changed state, so a torn-down session is reaped, never a zombie.
#[verifier::external_body]
fn sys_waitpid_block(pid: u32)
    requires
        pid >= 1,
        pid <= 0x7fffffff,
{
    if let Some(p) = rustix_openpty::rustix::process::Pid::from_raw(pid as i32) {
        let _ = rustix_openpty::rustix::process::waitpid(
            Some(p),
            rustix_openpty::rustix::process::WaitOptions::empty(),
        );
    }
}

/// Relies on rustix::io::write: writes a prefix of `data`; the result
/// counts how many leading bytes the kernel accepted.
#[verifier::external_body]
fn sys_write(fd: &OwnedFd, data: &[u8]) -> (r: Result<usize, i32>)
    ensures
        r matches Ok(n) ==> n <= data@.len(),
{
    match rustix_openpty::rustix::io::write(fd, data) {
        Ok(n) => Ok(n),
        Err(e) => Err(e.raw_os_error()),
    }
}

impl PtyHandle {
    /// A usable handle has a plausible descriptor and process id and a
    /// window size already recorded.
    pub closed spec fn wf(self) -> bool {
        &&& self.fd >= 0
        &&& 1 <= self.pid <= 0x7fffffff
    }

    /// The raw descriptor value.
    pub fn pty_fd(&self) -> (r: i32)
        ensures
            r == self.spec_fd(),
    {
        self.fd
    }

    /// The child process id.
    pub fn pty_pid(&self) -> (r: u32)
        ensures
            r == self.spec_pid(),
    {
        self.pid
    }

    /// The raw descriptor value, as a spec field.
    pub closed spec fn spec_fd(self) -> i32 {
        self.fd
    }

    /// The child process id, as a spec field.
    pub closed spec fn spec_pid(self) -> u32 {
        self.pid
    }

    /// Whether this handle spawned its own child.
    pub closed spec fn spec_owns_child(self) -> bool {
        self.owns_child
    }

    /// Whether an exit has been observed.
    pub closed spec fn spec_exited(self) -> bool {
        self.exited
    }

    /// The last window size set or read, columns then rows.
    pub closed spec fn spec_size(self) -> (u16, u16) {
        self.size
    }

    /// The current window size, columns then rows.
    pub fn size(&self) -> (r: (u16, u16))
        ensures
            r == self.spec_size(),
    {
        self.size
    }

    /// Allocate a fresh PTY pair sized to `ws`. The returned handle owns
    /// the master side; the user-side descriptor and its raw value are
    /// handed back for the caller to attach a child to, after which
    /// `attach_child` records the child's identity.
    pub fn open(ws: WindowSize) -> (r: Result<(PtyHandle, OwnedFd, i32), i32>)
        requires
            ws.fits(),
        ensures
            r matches Ok((h, u, ufd)) ==> {
                &&& h.spec_size() == (ws.cols, ws.rows)
                &&& !h.spec_owns_child()
                &&& !h.spec_exited()
                &&& h.spec_fd() >= 0
            },
    {
        let xp = ws.pixel_width();
        let yp = ws.pixel_height();
        match sys_openpty(ws.rows, ws.cols, xp, yp) {
            Ok((master, mfd, user, ufd)) => {
                let h = PtyHandle {
                    master,
                    fd: mfd,
                    pid: 1,
                    owns_child: false,
                    exited: false,
                    size: (ws.cols, ws.rows),
                };
                Ok((h, user, ufd))
            },
            Err(e) => Err(e),
        }
    }

    /// Record the spawned child's process id; the handle then owns it.
    pub fn attach_child(&mut self, pid: u32)
        requires
            1 <= pid <= 0x7fffffff,
        ensures
            final(self).spec_pid() == pid,
            final(self).spec_owns_child(),
            final(self).spec_fd() == old(self).spec_fd(),
            final(self).spec_exited() == old(self).spec_exited(),
            final(self).spec_size() == old(self).spec_size(),
            final(self).wf() == (old(self).spec_fd() >= 0),
    {
        self.pid = pid;
        self.owns_child = true;
    }

    /// Rebuild a handle from a descriptor inherited across an exec and the
    /// pid of the child on its slave side. No validation happens here: the
    /// caller must have checked, or must validate afterwards, that the
    /// descriptor is an open PTY master and the pid is the original child.
    /// The handle does not own a child object, so exit detection will use
    /// the direct wait.
    ///
    /// Relies on rustix::fd::AsRawFd::as_raw_fd: the recorded `fd` field
    /// is read from the descriptor itself, and an owned descriptor is
    /// open, so its raw value is nonnegative.
    #[verifier::external_body]
    pub fn restore_from_raw(master: OwnedFd, pid: u32, size: (u16, u16)) -> (r: PtyHandle)
        requires
            1 <= pid <= 0x7fffffff,
        ensures
            r.spec_fd() >= 0,
            r.spec_pid() == pid,
            !r.spec_owns_child(),
            !r.spec_exited(),
            r.spec_size() == size,
            r.wf(),
    {
        let fd = rustix_openpty::rustix::fd::AsRawFd::as_raw_fd(&master);
        PtyHandle { master, fd, pid, owns_child: false, exited: false, size }
    }

    /// Detach the descriptor and child ahead of an exec-based restart:
    /// ownership of the descriptor leaves this handle without closing it,
    /// and the destructor-style teardown is skipped, because the child
    /// must outlive this process image.
    ///
    /// Relies on rustix::fd::IntoRawFd::into_raw_fd, which releases the
    /// descriptor unclosed and returns its raw value; the handle's `fd`
    /// field mirrors that value, because every constructor reads it from
    /// the descriptor itself (`open` through `sys_openpty`,
    /// `restore_from_raw` directly).
    #[verifier::external_body]
    pub fn into_raw_parts(self) -> (r: (i32, u32))
        ensures
            r.0 == self.spec_fd(),
            r.1 == self.spec_pid(),
    {
        (rustix_openpty::rustix::fd::IntoRawFd::into_raw_fd(self.master), self.pid)
    }

    /// Resize the PTY: rows and columns as given, pixel dimensions derived
    /// from the cell metrics. The recorded size is updated only when the
    /// kernel accepted the new size.
    pub fn resize(&mut self, ws: WindowSize) -> (r: Result<(), i32>)
        requires
            ws.fits(),
            !old(self).spec_exited(),
        ensures
            r is Ok ==> {
                &&& final(self).spec_size() == (ws.cols, ws.rows)
                &&& final(self).spec_fd() == old(self).spec_fd()
                &&& final(self).spec_pid() == old(self).spec_pid()
                &&& final(self).spec_owns_child() == old(self).spec_owns_child()
                &&& final(self).spec_exited() == old(self).spec_exited()
            },
            r is Err ==> *final(self) == *old(self),
    {
        let xp = ws.pixel_width();
        let yp = ws.pixel_height();
        match sys_set_winsize(&self.master, ws.rows, ws.cols, xp, yp) {
            Ok(()) => {
                self.size = (ws.cols, ws.rows);
                Ok(())
            },
            Err(e) => Err(e),
        }
    }

    /// Read the kernel's window size and adopt it as the recorded size.
    pub fn refresh_size(&mut self) -> (r: Result<(u16, u16), i32>)
        ensures
            r matches Ok(s) ==> {
                &&& final(self).spec_size() == s
                &&& final(self).spec_fd() == old(self).spec_fd()
                &&& final(self).spec_pid() == old(self).spec_pid()
                &&& final(self).spec_owns_child() == old(self).spec_owns_child()
                &&& final(self).spec_exited() == old(self).spec_exited()
            },
            r is Err ==> *final(self) == *old(self),
    {
        match sys_get_winsize(&self.master) {
            Ok(s) => {
                self.size = s;
                Ok(s)
            },
            Err(e) => Err(e),
        }
    }

    /// Digest one wait-probe outcome: decode a reported status into an
    /// exit event, mark the handle on the first exit seen, and report
    /// nothing when the probe reported nothing or the handle had already
    /// exited. This is the whole decision behind one poll; the probe
    /// itself is the kernel's.
    pub fn note_child_status(&mut self, probe: Option<i32>) -> (r: Option<ChildEvent>)
        ensures
            r == spec_poll_result(old(self).spec_exited(), probe),
            final(self).spec_fd() == old(self).spec_fd(),
            final(self).spec_pid() == old(self).spec_pid(),
            final(self).spec_owns_child() == old(self).spec_owns_child(),
            final(self).spec_size() == old(self).spec_size(),
            final(self).spec_exited() == (old(self).spec_exited() || r is Some),
            r is None ==> *final(self) == *old(self),
    {
        if self.exited {
            return None;
        }
        match probe {
            Some(status) => {
                let ev = decode_wait_status(status);
                match ev {
                    Some(e) => {
                        self.exited = true;
                        Some(e)
                    },
                    None => None,
                }
            },
            None => None,
        }
    }

    /// Poll for a child exit without blocking: nothing while the child
    /// still runs; `Exited(Some(code))` after a normal exit; and
    /// `Exited(None)` when a signal killed it. Observing an exit marks
    /// the handle, and a marked handle reports nothing further. The
    /// result is `note_child_status` applied to whatever the wait probe
    /// reported.
    pub fn poll_child_event(&mut self) -> (r: Option<ChildEvent>)
        requires
            old(self).wf(),
        ensures
            final(self).wf(),
            final(self).spec_fd() == old(self).spec_fd(),
            final(self).spec_pid() == old(self).spec_pid(),
            final(self).spec_owns_child() == old(self).spec_owns_child(),
            final(self).spec_size() == old(self).spec_size(),
            old(self).spec_exited() ==> r is None && *final(self) == *old(self),
            final(self).spec_exited() == (old(self).spec_exited() || r is Some),
            r is None ==> *final(self) == *old(self),
    {
        let probe = sys_waitpid_nohang(self.pid);
        self.note_child_status(probe)
    }

    /// Check that the descriptor is still open and the process still
    /// exists: the validation step after a restart.
    pub fn validate(&self) -> (r: (bool, bool))
        requires
            self.wf(),
    {
        let fd_ok = sys_fd_is_open(&self.master);
        let pid_ok = sys_pid_alive(self.pid);
        (fd_ok, pid_ok)
    }

    /// Clear close-on-exec on the master descriptor so it survives the
    /// coming exec.
    pub fn clear_cloexec(&self) -> (r: Result<(), i32>) {
        sys_clear_cloexec(&self.master)
    }

    /// Write bytes to the PTY master; the count of accepted bytes never
    /// exceeds what was offered.
    pub fn write(&mut self, data: &[u8]) -> (r: Result<usize, i32>)
        requires
            !old(self).spec_exited(),
        ensures
            *final(self) == *old(self),
            r matches Ok(n) ==> n <= data@.len(),
    {
        sys_write(&self.master, data)
    }

    /// Make the master descriptor nonblocking, so reads report what is
    /// available instead of waiting: read its status flags and set them
    /// back with the nonblocking flag added.
    pub fn set_nonblocking(&self) -> (r: Result<(), i32>)
    {
        match sys_get_status_flags(&self.master) {
            Ok(bits) => sys_set_flags_nonblocking(&self.master, bits),
            Err(e) => Err(e),
        }
    }

    /// Read bytes from the PTY master into `buf`; the count of delivered
    /// bytes never exceeds the buffer, and zero means end of file. The
    /// buffer keeps its length; only its contents change.
    pub fn read(&mut self, buf: &mut Vec<u8>) -> (r: Result<usize, i32>)
        requires
            !old(self).spec_exited(),
        ensures
            *final(self) == *old(self),
            final(buf)@.len() == old(buf)@.len(),
            r matches Ok(n) ==> n <= old(buf)@.len(),
    {
        sys_read(&self.master, buf)
    }

    /// Tear a session down. A handle that spawned its own child signals
    /// it to hang up and blocks until it is reaped, so no zombie remains;
    /// a handle restored from a raw pair only drops its descriptor, since
    /// the direct wait is how its child is reaped. Consuming the handle
    /// closes the master descriptor either way.
    pub fn teardown(self)
    {
        if self.owns_child && self.pid >= 1 && self.pid <= 0x7fffffff {
            let _ = sys_send_sighup(self.pid);
            sys_waitpid_block(self.pid);
        }
    }

    /// Force a redraw: set a window size one column away, signal the
    /// child, pause briefly, restore the original size, and signal again.
    /// Terminal programs ignore a resize to an identical size, so the
    /// toggle is what makes them repaint. Once it completes, the recorded
    /// window size is exactly what it was when the redraw began.
    pub fn force_redraw(&mut self) -> (r: Result<(), i32>)
        requires
            old(self).wf(),
            !old(self).spec_exited(),
        ensures
            r is Ok ==> *final(self) == *old(self),
    {
        let (cols, rows) = self.size;
        let sizes = redraw_sizes(cols, rows);
        let shrunk = sizes[0];
        let back = sizes[1];
        match sys_set_winsize(&self.master, shrunk.1, shrunk.0, 0, 0) {
            Ok(()) => {},
            Err(e) => {
                return Err(e);
            },
        }
        self.size = shrunk;
        match sys_send_sigwinch(self.pid) {
            Ok(()) => {},
            Err(e) => {
                self.size = (cols, rows);
                return Err(e);
            },
        }
        sys_sleep_millis(50);
        match sys_set_winsize(&self.master, back.1, back.0, 0, 0) {
            Ok(()) => {},
            Err(e) => {
                self.size = (cols, rows);
                return Err(e);
            },
        }
        self.size = back;
        match sys_send_sigwinch(self.pid) {
            Ok(()) => {},
            Err(e) => {
                return Err(e);
            },
        }
        proof {
            assert(spec_redraw_sizes(cols, rows)[1] == (cols, rows));
        }
        Ok(())
    }
}

/// What one poll yields, given whether an exit was already observed and
/// what the wait probe reported.
pub open spec fn spec_poll_result(exited: bool, probe: Option<i32>) -> Option<ChildEvent> {
    if exited {
        None
    } else {
        match probe {
            Some(status) => spec_decode_wait_status(status),
            None => None,
        }
    }
}

/// On a handle that has seen no exit — one just spawned or just restored
/// — a poll whose wait probe reports nothing yields nothing: nothing is
/// reaped and, by `note_child_status`, the handle does not change.
pub proof fn law_fresh_handle_polls_nothing(probe: Option<i32>)
    requires
        probe is None,
    ensures
        spec_poll_result(false, probe) is None,
{
}

/// Detaching a handle into its raw pair and restoring from that same pair
/// yields a handle with the same descriptor, the same child, and the same
/// recorded size, whose exit detection behaves exactly as the original's:
/// for every outcome the wait probe can report, both decode it alike. The
/// restored handle registers its own fresh signal channel and the
/// original's ownership ended when it was consumed, so nothing is
/// registered or reaped twice.
pub proof fn law_detach_restore_round_trip(h: PtyHandle, restored: PtyHandle)
    requires
        h.wf(),
        !h.spec_exited(),
        restored.spec_fd() == h.spec_fd(),
        restored.spec_pid() == h.spec_pid(),
        restored.spec_size() == h.spec_size(),
        !restored.spec_owns_child(),
        !restored.spec_exited(),
    ensures
        restored.wf(),
        forall|probe: Option<i32>|
            spec_poll_result(restored.spec_exited(), probe) == spec_poll_result(
                h.spec_exited(),
                probe,
            ),
{
}

} // verus!
