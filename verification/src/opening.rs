//! Opening a pane: attaching to a daemon, launching one, or starting a shell in
//! this process, and what is tried next where one of these fails.
use crate::context::{
    attach_timeout, attached_backend, attached_view, fallback, fresh_start, hosting, pty_cells,
    spawned_backend, AttachTarget, BackendView, Fallback, IdCounter, PaneBackend, PaneSpawn,
    PersistenceOptions, Shell, TargetView, LOCAL_ATTACH_SECS, SSH_ATTACH_SECS,
};
use crate::launch::copy_texts;
use crate::pane::{opt_text, texts};
use crate::session::copy_text;
use vstd::prelude::*;

verus! {

/// How a pane is opened.
#[derive(Clone, Debug)]
pub struct PaneConfig {
    pub shell: Shell,
    pub working_dir: Option<String>,
    /// Whether a local shell is forked, which takes neither arguments nor a
    /// directory.
    pub use_fork: bool,
    pub persistence: Option<PersistenceOptions>,
    /// The session that a new daemon is filed under.
    pub session_name: Option<String>,
    pub columns: usize,
    pub lines: usize,
    /// What stands for dimensions that are out of range.
    pub least_columns: u16,
    pub least_lines: u16,
}

/// The mathematical value of a [`PaneConfig`].
#[verifier::ext_equal]
pub struct ConfigView {
    pub program: Seq<char>,
    pub args: Seq<Seq<char>>,
    pub working_dir: Option<Seq<char>>,
    pub use_fork: bool,
    pub persistence: Option<PersistenceOptions>,
    pub session_name: Option<Seq<char>>,
    pub columns: usize,
    pub lines: usize,
    /// What stands for dimensions that are out of range.
    pub least_columns: u16,
    pub least_lines: u16,
}

impl View for PaneConfig {
    type V = ConfigView;

    open spec fn view(&self) -> ConfigView {
        ConfigView {
            program: self.shell.program@,
            args: texts(self.shell.args@),
            working_dir: opt_text(self.working_dir),
            use_fork: self.use_fork,
            persistence: self.persistence,
            session_name: opt_text(self.session_name),
            columns: self.columns,
            lines: self.lines,
            least_columns: self.least_columns,
            least_lines: self.least_lines,
        }
    }
}

/// A pane that was opened.
#[derive(Debug)]
pub struct OpenedPane {
    pub route: usize,
    pub shell_pid: u32,
    pub backend: PaneBackend,
}

/// What is done next for a pane.
#[derive(Debug)]
pub enum OpenAction {
    /// The daemon is attached to.
    Attach { target: AttachTarget, secs: u64 },
    /// A daemon is launched and attached to.
    Launch {
        ring_bytes: usize,
        program: String,
        args: Vec<String>,
        working_dir: Option<String>,
        session_name: Option<String>,
    },
    /// A shell is forked in this process.
    Fork { program: String, columns: u16, rows: u16 },
    /// A shell is started in this process.
    Start {
        program: String,
        args: Vec<String>,
        working_dir: Option<String>,
        columns: u16,
        rows: u16,
    },
    /// It is looked up whether this is a directory.
    LookUp(String),
    Opened(OpenedPane),
    Failed(String),
    /// Nothing: what was told answers nothing that was asked for.
    Idle,
}

/// The mathematical value of an [`OpenAction`].
#[verifier::ext_equal]
pub enum OpenActionView {
    Attach { target: TargetView, secs: u64 },
    Launch {
        ring_bytes: usize,
        program: Seq<char>,
        args: Seq<Seq<char>>,
        working_dir: Option<Seq<char>>,
        session_name: Option<Seq<char>>,
    },
    Fork { program: Seq<char>, columns: u16, rows: u16 },
    Start {
        program: Seq<char>,
        args: Seq<Seq<char>>,
        working_dir: Option<Seq<char>>,
        columns: u16,
        rows: u16,
    },
    LookUp(Seq<char>),
    Opened { route: usize, shell_pid: u32, backend: BackendView },
    Failed(Seq<char>),
    Idle,
}

impl View for OpenAction {
    type V = OpenActionView;

    open spec fn view(&self) -> OpenActionView {
        match self {
            OpenAction::Attach { target, secs } => OpenActionView::Attach {
                target: target@,
                secs: *secs,
            },
            OpenAction::Launch { ring_bytes, program, args, working_dir, session_name } => {
                OpenActionView::Launch {
                    ring_bytes: *ring_bytes,
                    program: program@,
                    args: texts(args@),
                    working_dir: opt_text(*working_dir),
                    session_name: opt_text(*session_name),
                }
            },
            OpenAction::Fork { program, columns, rows } => OpenActionView::Fork {
                program: program@,
                columns: *columns,
                rows: *rows,
            },
            OpenAction::Start { program, args, working_dir, columns, rows } => {
                OpenActionView::Start {
                    program: program@,
                    args: texts(args@),
                    working_dir: opt_text(*working_dir),
                    columns: *columns,
                    rows: *rows,
                }
            },
            OpenAction::LookUp(dir) => OpenActionView::LookUp(dir@),
            OpenAction::Opened(pane) => OpenActionView::Opened {
                route: pane.route,
                shell_pid: pane.shell_pid,
                backend: pane.backend@,
            },
            OpenAction::Failed(why) => OpenActionView::Failed(why@),
            OpenAction::Idle => OpenActionView::Idle,
        }
    }
}

/// What came of an action.
#[derive(Debug)]
pub enum OpenEvent {
    Attached { shell_pid: u32, cwd: Option<String> },
    Launched { pane_id: String, socket: String, shell_pid: u32, cwd: Option<String> },
    /// The daemon could not be attached to, or not be launched.
    NoDaemon(String),
    Started { shell_pid: u32 },
    NotStarted(String),
    LookedUp { is_dir: bool },
}

/// What is waited for.
#[derive(Debug)]
pub enum Stage {
    Attaching(AttachTarget),
    Launching,
    Starting,
    LookingUp(String),
    Over,
}

/// The mathematical value of a [`Stage`].
#[verifier::ext_equal]
pub enum StageView {
    Attaching(TargetView),
    Launching,
    Starting,
    LookingUp(Seq<char>),
    Over,
}

impl View for Stage {
    type V = StageView;

    open spec fn view(&self) -> StageView {
        match self {
            Stage::Attaching(target) => StageView::Attaching(target@),
            Stage::Launching => StageView::Launching,
            Stage::Starting => StageView::Starting,
            Stage::LookingUp(dir) => StageView::LookingUp(dir@),
            Stage::Over => StageView::Over,
        }
    }
}

/// A pane that is being opened.
#[derive(Debug)]
pub struct Opening {
    config: PaneConfig,
    stage: Stage,
    /// The number of the terminal of the try that is under way.
    route: usize,
    /// Where a failed attach is followed by a fresh shell: where that starts.
    restore: Option<Option<String>>,
}

/// The mathematical value of an [`Opening`].
#[verifier::ext_equal]
pub struct OpeningView {
    pub config: ConfigView,
    pub stage: StageView,
    pub route: usize,
    pub restore: Option<Option<Seq<char>>>,
}

impl View for Opening {
    type V = OpeningView;

    closed spec fn view(&self) -> OpeningView {
        OpeningView {
            config: self.config@,
            stage: self.stage@,
            route: self.route,
            restore: match self.restore {
                Some(cwd) => Some(opt_text(cwd)),
                None => None,
            },
        }
    }
}

/// The number after one: they start over where they run out.
pub open spec fn number_after(n: usize) -> usize {
    if n == usize::MAX {
        0
    } else {
        (n + 1) as usize
    }
}

/// A dimension of a terminal, the least one where it is out of range.
pub open spec fn cells_of(cells: usize, least: u16) -> u16 {
    if cells <= u16::MAX {
        cells as u16
    } else {
        least
    }
}

/// How a shell is started in this process.
pub open spec fn local_action(c: ConfigView) -> OpenActionView {
    let columns = cells_of(c.columns, c.least_columns);
    let rows = cells_of(c.lines, c.least_lines);
    if c.use_fork {
        OpenActionView::Fork { program: c.program, columns, rows }
    } else {
        OpenActionView::Start {
            program: c.program,
            args: c.args,
            working_dir: c.working_dir,
            columns,
            rows,
        }
    }
}

/// How a daemon is launched.
pub open spec fn launch_action(c: ConfigView, ring_bytes: usize) -> OpenActionView {
    OpenActionView::Launch {
        ring_bytes,
        program: c.program,
        args: c.args,
        working_dir: c.working_dir,
        session_name: c.session_name,
    }
}

pub open spec fn attach_secs(target: TargetView) -> u64 {
    match target {
        TargetView::Ssh { .. } => SSH_ATTACH_SECS,
        TargetView::Unix { .. } => LOCAL_ATTACH_SECS,
    }
}

/// A pane for which a shell is started here: it has the next number.
pub open spec fn starting(o: OpeningView, next: usize) -> (OpeningView, usize, OpenActionView) {
    (
        OpeningView { stage: StageView::Starting, route: next, ..o },
        number_after(next),
        local_action(o.config),
    )
}

/// A fresh pane: behind a daemon where the settings have panes kept, else with a
/// shell here.
pub open spec fn fresh(o: OpeningView, next: usize) -> (OpeningView, usize, OpenActionView) {
    match o.config.persistence {
        Some(options) => (
            OpeningView { stage: StageView::Launching, route: next, ..o },
            number_after(next),
            launch_action(o.config, options.ring_bytes),
        ),
        None => starting(o, next),
    }
}

/// A pane that attaches to a daemon.
pub open spec fn attaching(o: OpeningView, target: TargetView, next: usize) -> (
    OpeningView,
    usize,
    OpenActionView,
) {
    (
        OpeningView { stage: StageView::Attaching(target), route: next, ..o },
        number_after(next),
        OpenActionView::Attach { target, secs: attach_secs(target) },
    )
}

/// A restored pane without its daemon: the directory that was saved is looked up
/// first.
pub open spec fn restarting(o: OpeningView, cwd: Option<Seq<char>>, next: usize) -> (
    OpeningView,
    usize,
    OpenActionView,
) {
    match cwd {
        Some(dir) => (
            OpeningView { stage: StageView::LookingUp(dir), ..o },
            next,
            OpenActionView::LookUp(dir),
        ),
        None => fresh(o, next),
    }
}

pub open spec fn over(o: OpeningView, next: usize, action: OpenActionView) -> (
    OpeningView,
    usize,
    OpenActionView,
) {
    (OpeningView { stage: StageView::Over, ..o }, next, action)
}

/// The config of a restored pane: in the saved directory where that is one still,
/// which a fork could not be started in.
pub open spec fn in_dir(c: ConfigView, dir: Seq<char>, is_dir: bool) -> ConfigView {
    if is_dir {
        ConfigView { working_dir: Some(dir), use_fork: false, ..c }
    } else {
        c
    }
}

/// What an event leads to: what is held of the pane then, the next free number,
/// and what is done.
pub open spec fn advanced(o: OpeningView, next: usize, event: OpenEvent) -> (
    OpeningView,
    usize,
    OpenActionView,
) {
    match (o.stage, event) {
        (StageView::Attaching(target), OpenEvent::Attached { shell_pid, cwd }) => over(
            o,
            next,
            OpenActionView::Opened {
                route: o.route,
                shell_pid,
                backend: attached_view(target, opt_text(cwd)),
            },
        ),
        (StageView::Attaching(_), OpenEvent::NoDaemon(why)) => match o.restore {
            Some(cwd) => restarting(o, cwd, next),
            None => over(o, next, OpenActionView::Failed(why@)),
        },
        (StageView::Launching, OpenEvent::Launched { pane_id, socket, shell_pid, cwd }) => over(
            o,
            next,
            OpenActionView::Opened {
                route: o.route,
                shell_pid,
                backend: BackendView::Ptyd {
                    pane_id: pane_id@,
                    socket: socket@,
                    host: None,
                    reported_cwd: opt_text(cwd),
                    replayed: false,
                },
            },
        ),
        (StageView::Launching, OpenEvent::NoDaemon(_)) => starting(o, next),
        (StageView::Starting, OpenEvent::Started { shell_pid }) => over(
            o,
            next,
            OpenActionView::Opened { route: o.route, shell_pid, backend: BackendView::Local },
        ),
        (StageView::Starting, OpenEvent::NotStarted(why)) => over(
            o,
            next,
            OpenActionView::Failed(why@),
        ),
        (StageView::LookingUp(dir), OpenEvent::LookedUp { is_dir }) => fresh(
            OpeningView { config: in_dir(o.config, dir, is_dir), ..o },
            next,
        ),
        _ => (o, next, OpenActionView::Idle),
    }
}

impl Opening {
    /// What is held of a pane before anything was tried.
    pub open spec fn untried(config: ConfigView, restore: Option<Option<Seq<char>>>) -> OpeningView {
        OpeningView { config, stage: StageView::Over, route: 0, restore }
    }

    fn take_number(&mut self, routes: &mut IdCounter)
        ensures
            final(self)@ == (OpeningView { route: old(routes).next, ..old(self)@ }),
            final(routes).next == number_after(old(routes).next),
    {
        self.route = routes.next;
        routes.next = routes.next.wrapping_add(1);
        assert(self@ =~= OpeningView { route: old(routes).next, ..old(self)@ });
    }

    fn start_here(&mut self, routes: &mut IdCounter) -> (action: OpenAction)
        ensures
            (final(self)@, final(routes).next, action@) == starting(old(self)@, old(routes).next),
    {
        self.take_number(routes);
        let ghost numbered = self@;
        self.stage = Stage::Starting;
        assert(self@ =~= OpeningView { stage: StageView::Starting, ..numbered });
        let columns: u16 = pty_cells(self.config.columns, self.config.least_columns);
        let rows: u16 = pty_cells(self.config.lines, self.config.least_lines);
        let program = self.config.shell.program.clone();
        if self.config.use_fork {
            OpenAction::Fork { program, columns, rows }
        } else {
            OpenAction::Start {
                program,
                args: copy_texts(&self.config.shell.args),
                working_dir: copy_text(&self.config.working_dir),
                columns,
                rows,
            }
        }
    }

    fn launch(&mut self, routes: &mut IdCounter, ring_bytes: usize) -> (action: OpenAction)
        ensures
            final(self)@ == (OpeningView {
                stage: StageView::Launching,
                route: old(routes).next,
                ..old(self)@
            }),
            final(routes).next == number_after(old(routes).next),
            action@ == launch_action(old(self)@.config, ring_bytes),
    {
        self.take_number(routes);
        let ghost numbered = self@;
        self.stage = Stage::Launching;
        assert(self@ =~= OpeningView { stage: StageView::Launching, ..numbered });
        OpenAction::Launch {
            ring_bytes,
            program: self.config.shell.program.clone(),
            args: copy_texts(&self.config.shell.args),
            working_dir: copy_text(&self.config.working_dir),
            session_name: copy_text(&self.config.session_name),
        }
    }

    fn start_fresh(&mut self, routes: &mut IdCounter) -> (action: OpenAction)
        ensures
            (final(self)@, final(routes).next, action@) == fresh(old(self)@, old(routes).next),
    {
        match hosting(false, self.config.persistence, false) {
            Some(ring_bytes) => self.launch(routes, ring_bytes),
            None => self.start_here(routes),
        }
    }

    fn attach(&mut self, routes: &mut IdCounter, target: AttachTarget) -> (action: OpenAction)
        ensures
            (final(self)@, final(routes).next, action@) == attaching(
                old(self)@,
                target@,
                old(routes).next,
            ),
    {
        self.take_number(routes);
        let ghost numbered = self@;
        let wanted = target.duplicate();
        self.stage = Stage::Attaching(target);
        assert(self@ =~= OpeningView { stage: StageView::Attaching(target@), ..numbered });
        let asked = Some(wanted);
        let secs: u64 = attach_timeout(&asked);
        match asked {
            Some(target) => OpenAction::Attach { target, secs },
            None => OpenAction::Idle,
        }
    }

    fn restart(&mut self, routes: &mut IdCounter, cwd: Option<String>) -> (action: OpenAction)
        ensures
            (final(self)@, final(routes).next, action@) == restarting(
                old(self)@,
                opt_text(cwd),
                old(routes).next,
            ),
    {
        match cwd {
            Some(dir) => {
                let asked = dir.clone();
                self.stage = Stage::LookingUp(dir);
                assert(self@ =~= OpeningView { stage: StageView::LookingUp(dir@), ..old(self)@ });
                OpenAction::LookUp(asked)
            },
            None => self.start_fresh(routes),
        }
    }

    fn end(&mut self, action: OpenAction) -> (done: OpenAction)
        ensures
            final(self)@ == (OpeningView { stage: StageView::Over, ..old(self)@ }),
            done == action,
    {
        self.stage = Stage::Over;
        assert(self@ =~= OpeningView { stage: StageView::Over, ..old(self)@ });
        action
    }

    fn untried_with(config: PaneConfig, restore: Option<Option<String>>) -> (opening: Opening)
        ensures
            opening@ == Self::untried(
                config@,
                match restore {
                    Some(cwd) => Some(opt_text(cwd)),
                    None => None,
                },
            ),
    {
        Opening { config, stage: Stage::Over, route: 0, restore }
    }

    /// Begins to open a pane: with a shell here where that is forced, else one
    /// that is attached to, whatever the settings say, else a fresh one.
    pub fn create_context(
        routes: &mut IdCounter,
        config: PaneConfig,
        attach: Option<AttachTarget>,
        force_local: bool,
    ) -> (begun: (Opening, OpenAction))
        ensures
            ({
                let o = Self::untried(config@, None);
                (begun.0@, final(routes).next, begun.1@) == if force_local {
                    starting(o, old(routes).next)
                } else {
                    match attach {
                        Some(target) => attaching(o, target@, old(routes).next),
                        None => fresh(o, old(routes).next),
                    }
                }
            }),
    {
        let mut opening = Self::untried_with(config, None);
        let action = match hosting(attach.is_some(), opening.config.persistence, force_local) {
            Some(ring_bytes) => match attach {
                Some(target) => opening.attach(routes, target),
                None => opening.launch(routes, ring_bytes),
            },
            None => opening.start_here(routes),
        };
        (opening, action)
    }

    /// Begins to open a pane that is restored: the daemon it had is attached to.
    /// Where that fails, or it had none, a fresh one takes its place, in the
    /// directory that was saved.
    pub fn create_restored_context(
        routes: &mut IdCounter,
        config: PaneConfig,
        spawn: PaneSpawn,
    ) -> (begun: (Opening, OpenAction))
        ensures
            ({
                let o = Self::untried(config@, Some(opt_text(spawn.cwd)));
                (begun.0@, final(routes).next, begun.1@) == match spawn.attach {
                    Some(target) => attaching(o, target@, old(routes).next),
                    None => restarting(o, opt_text(spawn.cwd), old(routes).next),
                }
            }),
    {
        let cwd = copy_text(&spawn.cwd);
        let mut opening = Self::untried_with(config, Some(cwd));
        let action = match spawn.attach {
            Some(target) => opening.attach(routes, target),
            None => opening.restart(routes, spawn.cwd),
        };
        (opening, action)
    }

    /// Goes on with what came of an action.
    pub fn step(&mut self, routes: &mut IdCounter, event: OpenEvent) -> (action: OpenAction)
        ensures
            (final(self)@, final(routes).next, action@) == advanced(
                old(self)@,
                old(routes).next,
                event,
            ),
    {
        let route: usize = self.route;
        match event {
            OpenEvent::Attached { shell_pid, cwd } => match &self.stage {
                Stage::Attaching(target) => {
                    let backend = attached_backend(target, cwd);
                    self.end(OpenAction::Opened(OpenedPane { route, shell_pid, backend }))
                },
                _ => OpenAction::Idle,
            },
            OpenEvent::Launched { pane_id, socket, shell_pid, cwd } => match &self.stage {
                Stage::Launching => {
                    let backend = spawned_backend(pane_id, socket, cwd);
                    self.end(OpenAction::Opened(OpenedPane { route, shell_pid, backend }))
                },
                _ => OpenAction::Idle,
            },
            OpenEvent::NoDaemon(why) => {
                let attached = match &self.stage {
                    Stage::Attaching(_) => true,
                    Stage::Launching => false,
                    _ => {
                        return OpenAction::Idle;
                    },
                };
                match fallback(attached) {
                    Fallback::Local => self.start_here(routes),
                    Fallback::Report => match &self.restore {
                        Some(cwd) => {
                            let cwd = copy_text(cwd);
                            self.restart(routes, cwd)
                        },
                        None => self.end(OpenAction::Failed(why)),
                    },
                }
            },
            OpenEvent::Started { shell_pid } => match &self.stage {
                Stage::Starting => {
                    let backend = PaneBackend::Local;
                    self.end(OpenAction::Opened(OpenedPane { route, shell_pid, backend }))
                },
                _ => OpenAction::Idle,
            },
            OpenEvent::NotStarted(why) => match &self.stage {
                Stage::Starting => self.end(OpenAction::Failed(why)),
                _ => OpenAction::Idle,
            },
            OpenEvent::LookedUp { is_dir } => {
                let saved = match &self.stage {
                    Stage::LookingUp(dir) => Some(dir.clone()),
                    _ => {
                        return OpenAction::Idle;
                    },
                };
                let start = fresh_start(
                    &saved,
                    is_dir,
                    &self.config.working_dir,
                    self.config.use_fork,
                );
                self.config.working_dir = start.working_dir;
                self.config.use_fork = start.use_fork;
                assert(self@ =~= OpeningView {
                    config: in_dir(old(self)@.config, saved->0@, is_dir),
                    ..old(self)@
                });
                self.start_fresh(routes)
            },
        }
    }
}

/// A terminal always opens: where no daemon can be launched for a fresh pane, its
/// shell runs here.
pub proof fn law_a_terminal_always_opens(
    config: ConfigView,
    next: usize,
    why: String,
    shell_pid: u32,
)
    requires
        config.persistence is Some,
    ensures
        ({
            let begun = fresh(Opening::untried(config, None), next);
            let local = advanced(begun.0, begun.1, OpenEvent::NoDaemon(why));
            let opened = advanced(local.0, local.1, OpenEvent::Started { shell_pid });
            &&& begun.2 is Launch
            &&& local.2 == local_action(config)
            &&& opened.2 matches OpenActionView::Opened { backend, .. }
            &&& backend is Local
        }),
{
}

/// A pane that was asked for by name is that one or none: whatever is told, it is
/// opened only by attaching to it, and a failure is reported.
pub proof fn law_no_other_pane_takes_its_place(
    config: ConfigView,
    target: TargetView,
    next: usize,
    event: OpenEvent,
)
    ensures
        ({
            let begun = attaching(Opening::untried(config, None), target, next);
            let (o, _, action) = advanced(begun.0, begun.1, event);
            match action {
                OpenActionView::Opened { backend, .. } => exists|cwd: Option<Seq<char>>|
                    backend == attached_view(target, cwd),
                OpenActionView::Failed(why) => event matches OpenEvent::NoDaemon(w) && why == w@,
                _ => action is Idle && o == begun.0,
            }
        }),
{
    let begun = attaching(Opening::untried(config, None), target, next);
    let after = advanced(begun.0, begun.1, event);
    if let OpenEvent::Attached { shell_pid, cwd } = event {
        assert(after.2->backend == attached_view(target, opt_text(cwd)));
    }
}

/// A restored pane whose daemon is gone gets a fresh daemon where panes are kept,
/// so that it is kept the next time too; the fresh one replays nothing, and the
/// shell starts in the saved directory where that is one still.
pub proof fn law_a_dead_daemon_is_replaced(
    config: ConfigView,
    target: TargetView,
    cwd: Option<Seq<char>>,
    next: usize,
    why: String,
    is_dir: bool,
    launched: OpenEvent,
)
    requires
        config.persistence is Some,
        launched is Launched,
    ensures
        ({
            let begun = attaching(Opening::untried(config, Some(cwd)), target, next);
            let refused = advanced(begun.0, begun.1, OpenEvent::NoDaemon(why));
            let told = match cwd {
                Some(_) => advanced(refused.0, refused.1, OpenEvent::LookedUp { is_dir }),
                None => refused,
            };
            let opened = advanced(told.0, told.1, launched);
            &&& told.2 matches OpenActionView::Launch { working_dir, ring_bytes, .. }
            &&& ring_bytes == config.persistence->0.ring_bytes
            &&& working_dir == if cwd is Some && is_dir {
                cwd
            } else {
                config.working_dir
            }
            &&& opened.2 matches OpenActionView::Opened { backend, .. }
            &&& backend matches BackendView::Ptyd { host: None, replayed: false, .. }
        }),
{
}

/// Every try has a number of its own: an answer to an earlier one is not taken
/// for the terminal that comes of a later one.
pub proof fn law_each_try_has_its_number(o: OpeningView, next: usize, event: OpenEvent)
    ensures
        ({
            let (after, free, action) = advanced(o, next, event);
            if action is Attach || action is Launch || action is Fork || action is Start {
                after.route == next && free == number_after(next)
            } else {
                after.route == o.route && free == next
            }
        }),
{
}

} // verus!
