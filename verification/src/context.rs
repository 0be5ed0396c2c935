//! How a pane is hosted: in this process or behind a daemon, fresh or attached
//! to, and what becomes of it when it is closed.
use crate::config::{Session, SessionRestore};
use crate::pane::{opt_text, texts};
use crate::protocol::{
    encode_client_hello, frame_bytes, le32, write_frame, FrameType, PROTOCOL_VERSION,
};
use crate::ring::DEFAULT_RING_BYTES;
use vstd::prelude::*;

verus! {

/// How long an attach to a local daemon may take, in seconds.
pub const LOCAL_ATTACH_SECS: u64 = 2;

/// How long an attach through ssh may take, in seconds.
pub const SSH_ATTACH_SECS: u64 = 6;

/// Hands out numbers, each once until they run out.
#[derive(Clone, Copy, Debug, PartialEq, Eq, Structural)]
pub struct IdCounter {
    pub next: usize,
}

/// The next number for a terminal's text.
pub fn next_rich_text_id(ids: &mut IdCounter) -> (id: usize)
    ensures
        id == old(ids).next,
        final(ids).next == if old(ids).next == usize::MAX {
            0
        } else {
            (old(ids).next + 1) as usize
        },
{
    let id: usize = ids.next;
    ids.next = id.wrapping_add(1);
    id
}

/// Whether the program is quitting, so that panes behind daemons are left to
/// them.
#[derive(Clone, Copy, Debug, PartialEq, Eq, Structural)]
pub struct QuitDetaching {
    pub on: bool,
}

pub fn set_quit_detaching(flag: &mut QuitDetaching)
    ensures
        final(flag).on,
{
    flag.on = true;
}

pub fn clear_quit_detaching(flag: &mut QuitDetaching)
    ensures
        !final(flag).on,
{
    flag.on = false;
}

/// How a pane's shell is hosted.
#[derive(Clone, Debug)]
pub enum PaneBackend {
    Local,
    /// Behind a daemon, which outlives this process.
    Ptyd {
        pane_id: String,
        /// Empty where the daemon is on another machine.
        socket: String,
        /// Where to reach the other machine.
        host: Option<String>,
        /// The directory the daemon told at the attach.
        reported_cwd: Option<String>,
        /// Whether the daemon was there before and replays the screen.
        replayed: bool,
    },
}

/// The mathematical value of a [`PaneBackend`].
pub enum BackendView {
    Local,
    Ptyd {
        pane_id: Seq<char>,
        socket: Seq<char>,
        host: Option<Seq<char>>,
        reported_cwd: Option<Seq<char>>,
        replayed: bool,
    },
}

impl View for PaneBackend {
    type V = BackendView;

    open spec fn view(&self) -> BackendView {
        match self {
            PaneBackend::Local => BackendView::Local,
            PaneBackend::Ptyd { pane_id, socket, host, reported_cwd, replayed } => {
                BackendView::Ptyd {
                    pane_id: pane_id@,
                    socket: socket@,
                    host: opt_text(*host),
                    reported_cwd: opt_text(*reported_cwd),
                    replayed: *replayed,
                }
            },
        }
    }
}

/// Where a pane attaches instead of starting a shell.
#[derive(Clone, Debug)]
pub enum AttachTarget {
    Unix { pane_id: String, socket: String },
    Ssh { host: String, pane_id: String },
}

/// The mathematical value of an [`AttachTarget`].
pub enum TargetView {
    Unix { pane_id: Seq<char>, socket: Seq<char> },
    Ssh { host: Seq<char>, pane_id: Seq<char> },
}

impl View for AttachTarget {
    type V = TargetView;

    open spec fn view(&self) -> TargetView {
        match self {
            AttachTarget::Unix { pane_id, socket } => TargetView::Unix {
                pane_id: pane_id@,
                socket: socket@,
            },
            AttachTarget::Ssh { host, pane_id } => TargetView::Ssh {
                host: host@,
                pane_id: pane_id@,
            },
        }
    }
}

impl AttachTarget {
    pub(crate) fn duplicate(&self) -> (copy: AttachTarget)
        ensures
            copy@ == self@,
    {
        match self {
            AttachTarget::Unix { pane_id, socket } => AttachTarget::Unix {
                pane_id: pane_id.clone(),
                socket: socket.clone(),
            },
            AttachTarget::Ssh { host, pane_id } => AttachTarget::Ssh {
                host: host.clone(),
                pane_id: pane_id.clone(),
            },
        }
    }
}

/// What a restored pane needs: a daemon to attach to, and where a fresh shell
/// starts should that fail.
#[derive(Clone, Debug)]
pub struct PaneSpawn {
    pub cwd: Option<String>,
    pub attach: Option<AttachTarget>,
}

impl Default for PaneSpawn {
    fn default() -> (spawn: PaneSpawn)
        ensures
            spawn.cwd is None,
            spawn.attach is None,
    {
        PaneSpawn { cwd: None, attach: None }
    }
}

/// How panes behind daemons are kept.
#[derive(Clone, Copy, Debug, PartialEq, Eq, Structural)]
pub struct PersistenceOptions {
    pub ring_bytes: usize,
}

/// How the settings have panes kept.
pub fn persistence_of(session: &Session) -> (options: Option<PersistenceOptions>)
    ensures
        options == if session.restore != SessionRestore::Never && session.persistent {
            Some(PersistenceOptions { ring_bytes: session.ring_bytes })
        } else {
            None
        },
{
    if session.uses_daemons() {
        Some(PersistenceOptions { ring_bytes: session.ring_bytes })
    } else {
        None
    }
}

/// Whether the settings have changes saved at once.
pub fn autosave_of(session: &Session) -> (autosave: bool)
    ensures
        autosave == (session.restore == SessionRestore::Always),
{
    session.restore == SessionRestore::Always
}

/// Whether a pane is hosted by a daemon, and with how much replay. One that is
/// attached to is, whatever the settings say.
pub fn hosting(
    attach: bool,
    persistence: Option<PersistenceOptions>,
    force_local: bool,
) -> (ring_bytes: Option<usize>)
    ensures
        ring_bytes == if force_local || !(attach || persistence is Some) {
            None
        } else {
            match persistence {
                Some(options) => Some(options.ring_bytes),
                None => Some(DEFAULT_RING_BYTES),
            }
        },
{
    if force_local {
        return None;
    }
    match persistence {
        Some(options) => Some(options.ring_bytes),
        None => if attach {
            Some(DEFAULT_RING_BYTES)
        } else {
            None
        },
    }
}

/// What follows when a daemon could not host a pane.
#[derive(Clone, Copy, Debug, PartialEq, Eq, Structural)]
pub enum Fallback {
    /// The failure is reported: this very pane was asked for.
    Report,
    /// The shell runs in this process: a terminal always opens.
    Local,
}

pub fn fallback(attach: bool) -> (then_: Fallback)
    ensures
        then_ == if attach {
            Fallback::Report
        } else {
            Fallback::Local
        },
{
    if attach {
        Fallback::Report
    } else {
        Fallback::Local
    }
}

/// How long an attach may take, in seconds. A fresh daemon is local.
pub fn attach_timeout(attach: &Option<AttachTarget>) -> (secs: u64)
    ensures
        secs == match attach {
            Some(AttachTarget::Ssh { .. }) => SSH_ATTACH_SECS,
            _ => LOCAL_ATTACH_SECS,
        },
{
    match attach {
        Some(AttachTarget::Ssh { .. }) => SSH_ATTACH_SECS,
        _ => LOCAL_ATTACH_SECS,
    }
}

/// A dimension of the terminal, the least one where it is out of range.
pub fn pty_cells(cells: usize, least: u16) -> (n: u16)
    ensures
        n == if cells <= u16::MAX {
            cells as u16
        } else {
            least
        },
{
    if cells <= 65535 {
        cells as u16
    } else {
        least
    }
}

/// The backend of a pane that attached to a daemon.
pub open spec fn attached_view(target: TargetView, cwd: Option<Seq<char>>) -> BackendView {
    match target {
        TargetView::Unix { pane_id, socket } => BackendView::Ptyd {
            pane_id,
            socket,
            host: None,
            reported_cwd: cwd,
            replayed: true,
        },
        TargetView::Ssh { host, pane_id } => BackendView::Ptyd {
            pane_id,
            socket: Seq::empty(),
            host: Some(host),
            reported_cwd: cwd,
            replayed: true,
        },
    }
}

/// The backend of a pane that attached to a daemon.
pub fn attached_backend(target: &AttachTarget, cwd: Option<String>) -> (backend: PaneBackend)
    ensures
        backend@ == attached_view(target@, opt_text(cwd)),
{
    match target {
        AttachTarget::Unix { pane_id, socket } => PaneBackend::Ptyd {
            pane_id: pane_id.clone(),
            socket: socket.clone(),
            host: None,
            reported_cwd: cwd,
            replayed: true,
        },
        AttachTarget::Ssh { host, pane_id } => PaneBackend::Ptyd {
            pane_id: pane_id.clone(),
            socket: String::new(),
            host: Some(host.clone()),
            reported_cwd: cwd,
            replayed: true,
        },
    }
}

/// The backend of a pane whose daemon was launched for it: it replays nothing.
pub fn spawned_backend(pane_id: String, socket: String, cwd: Option<String>) -> (backend:
    PaneBackend)
    ensures
        backend@ == (BackendView::Ptyd {
            pane_id: pane_id@,
            socket: socket@,
            host: None,
            reported_cwd: opt_text(cwd),
            replayed: false,
        }),
{
    PaneBackend::Ptyd { pane_id, socket, host: None, reported_cwd: cwd, replayed: false }
}

/// What is done to a pane's shell as the pane goes.
#[derive(Clone, Debug)]
pub enum PaneEnd {
    /// The reader stops, and the shell is killed.
    KillShell,
    /// The reader stops, and the daemon keeps the shell.
    Detach,
    /// The daemon at this socket is told to end.
    KillDaemon(String),
    /// The reader tells the daemon on the other machine to end.
    KillRemote,
}

/// What becomes of a shell whose pane goes: those behind daemons are left to
/// them when the program quits, and end with the pane otherwise.
pub fn pane_end(backend: &PaneBackend, quitting: bool) -> (end: PaneEnd)
    ensures
        match backend@ {
            BackendView::Local => end is KillShell,
            BackendView::Ptyd { socket, host, .. } => if quitting {
                end is Detach
            } else if host is None {
                end matches PaneEnd::KillDaemon(path) && path@ == socket
            } else {
                end is KillRemote
            },
        },
{
    match backend {
        PaneBackend::Local => PaneEnd::KillShell,
        PaneBackend::Ptyd { socket, host, .. } => if quitting {
            PaneEnd::Detach
        } else if host.is_none() {
            PaneEnd::KillDaemon(socket.clone())
        } else {
            PaneEnd::KillRemote
        },
    }
}

/// What is sent to a local daemon so that it ends.
pub open spec fn kill_bytes_of() -> Seq<u8> {
    frame_bytes(FrameType::ClientHello, le32(PROTOCOL_VERSION) + le32(0)) + frame_bytes(
        FrameType::Kill,
        Seq::empty(),
    )
}

pub fn kill_bytes() -> (bytes: Vec<u8>)
    ensures
        bytes@ == kill_bytes_of(),
{
    let mut bytes: Vec<u8> = Vec::new();
    let hello = encode_client_hello();
    let _ = write_frame(&mut bytes, FrameType::ClientHello, hello.as_slice());
    let nothing: Vec<u8> = Vec::new();
    assert(nothing@ =~= Seq::<u8>::empty());
    let _ = write_frame(&mut bytes, FrameType::Kill, nothing.as_slice());
    assert(bytes@ =~= kill_bytes_of());
    bytes
}

/// Whether the process of a pane may be looked up here: the pids of another
/// machine mean other processes on this one.
pub fn probes_locally(backend: &PaneBackend) -> (local: bool)
    ensures
        local == !(backend@ matches BackendView::Ptyd { host: Some(_), .. }),
{
    match backend {
        PaneBackend::Ptyd { host, .. } => host.is_none(),
        PaneBackend::Local => true,
    }
}

/// The sockets of local daemons among panes.
pub open spec fn local_sockets_of(backends: Seq<BackendView>) -> Seq<Seq<char>>
    decreases backends.len(),
{
    if backends.len() == 0 {
        Seq::empty()
    } else {
        let before = local_sockets_of(backends.drop_last());
        match backends.last() {
            BackendView::Ptyd { socket, host: None, .. } => before.push(socket),
            _ => before,
        }
    }
}

pub open spec fn backend_views(backends: Seq<PaneBackend>) -> Seq<BackendView> {
    Seq::new(backends.len(), |i: int| backends[i]@)
}

/// The sockets of the local daemons among panes: those that are killed when the
/// panes are discarded, and spared while they are open.
pub fn live_local_sockets(backends: &Vec<PaneBackend>) -> (sockets: Vec<String>)
    ensures
        texts(sockets@) == local_sockets_of(backend_views(backends@)),
{
    let mut sockets: Vec<String> = Vec::new();
    let ghost all = backend_views(backends@);
    assert(all.take(0) =~= Seq::<BackendView>::empty());
    assert(texts(sockets@) =~= local_sockets_of(all.take(0)));
    let mut i: usize = 0;
    while i < backends.len()
        invariant
            i <= backends@.len(),
            all == backend_views(backends@),
            texts(sockets@) == local_sockets_of(all.take(i as int)),
        decreases backends.len() - i,
    {
        let ghost before = sockets@;
        assert(all.take(i + 1).drop_last() =~= all.take(i as int));
        assert(all.take(i + 1).last() == backends@[i as int]@);
        match &backends[i] {
            PaneBackend::Ptyd { socket, host, .. } => if host.is_none() {
                sockets.push(socket.clone());
                assert(texts(sockets@) =~= texts(before).push(socket@));
            },
            PaneBackend::Local => {},
        }
        assert(texts(sockets@) == local_sockets_of(all.take(i + 1)));
        i = i + 1;
    }
    assert(all.take(i as int) =~= all);
    sockets
}

/// Where a restored pane's fresh shell starts.
#[derive(Clone, Debug)]
pub struct FreshStart {
    pub working_dir: Option<String>,
    pub use_fork: bool,
}

/// Where a restored pane's fresh shell starts: in the saved directory where that
/// is still one, without a fork then, else as the settings say.
pub fn fresh_start(
    saved_cwd: &Option<String>,
    is_dir: bool,
    working_dir: &Option<String>,
    use_fork: bool,
) -> (start: FreshStart)
    ensures
        saved_cwd is Some && is_dir ==> opt_text(start.working_dir) == opt_text(*saved_cwd)
            && !start.use_fork,
        !(saved_cwd is Some && is_dir) ==> opt_text(start.working_dir) == opt_text(*working_dir)
            && start.use_fork == use_fork,
{
    if let Some(cwd) = saved_cwd {
        if is_dir {
            return FreshStart { working_dir: Some(cwd.clone()), use_fork: false };
        }
    }
    let dir: Option<String> = match working_dir {
        Some(dir) => Some(dir.clone()),
        None => None,
    };
    FreshStart { working_dir: dir, use_fork }
}

// ---------------------------------------------------------------------------
// Opening a URL.

/// A program and its arguments.
#[derive(Clone, Debug)]
pub struct Shell {
    pub program: String,
    pub args: Vec<String>,
}

/// What a path names.
#[derive(Clone, Copy, Debug, PartialEq, Eq, Structural)]
pub enum PathKind {
    File,
    Dir,
    /// Nothing, or something else.
    Other,
}

/// The path that a URL names.
#[derive(Clone, Debug, PartialEq, Eq)]
pub struct UrlPath {
    /// The path itself, as its encoded bytes: it need not be text.
    pub exact: Vec<u8>,
    /// The path as it is shown and handed on.
    pub shown: String,
}

/// `Url::parse`, then `Url::to_file_path`, and of the path `as_encoded_bytes` and
/// `Path::display`: the path that a URL names, where it names one. Which path that
/// is depends on the platform and is left unsaid.
#[verifier::external_body]
fn file_path_of(url: &str) -> (path: Option<UrlPath>) {
    let parsed = url::Url::parse(url).ok()?;
    let path = parsed.to_file_path().ok()?;
    let exact = path.as_os_str().as_encoded_bytes().to_vec();
    Some(UrlPath { exact, shown: path.display().to_string() })
}

/// Whether a path is what [`file_path_of`] returned for a URL.
pub closed spec fn path_given(url: Seq<char>, path: Option<UrlPath>) -> bool {
    exists|u: &str| u@ == url && #[trigger] call_ensures(file_path_of, (u,), path)
}

/// The path that is to be opened: what the URL names, where there is one. What
/// stands there is looked up by the exact path.
pub fn open_url_path(open_url: &Option<String>) -> (path: Option<UrlPath>)
    ensures
        match open_url {
            Some(url) => path_given(url@, path),
            None => path is None,
        },
{
    match open_url {
        Some(url) => file_path_of(url.as_str()),
        None => None,
    }
}

/// What is started for a path that is to be opened: the editor on a file, the
/// shell in a directory, else the shell as it was.
pub fn process_open_url(
    shell: Shell,
    working_dir: Option<String>,
    editor: Shell,
    path: Option<(UrlPath, PathKind)>,
) -> (result: (Shell, Option<String>))
    ensures
        match path {
            Some((p, PathKind::File)) => result.0.program == editor.program && texts(
                result.0.args@,
            ) == texts(editor.args@).push(p.shown@) && result.1 == working_dir,
            Some((p, PathKind::Dir)) => result.0 == shell && opt_text(result.1) == Some(p.shown@),
            _ => result == (shell, working_dir),
        },
{
    match path {
        Some((p, PathKind::File)) => {
            let ghost wanted = texts(editor.args@).push(p.shown@);
            let mut args = editor.args;
            args.push(p.shown);
            assert(texts(args@) =~= wanted);
            (Shell { program: editor.program, args }, working_dir)
        },
        Some((p, PathKind::Dir)) => (shell, Some(p.shown)),
        _ => (shell, working_dir),
    }
}

} // verus!
