//! What holds of the choices around a pane: where it runs, what becomes of it, and
//! what a starting program does.
use crate::config::{Session, SessionRestore};
use crate::context::{
    attach_timeout, attached_backend, autosave_of, fallback, fresh_start, hosting,
    live_local_sockets, local_sockets_of, pane_end, persistence_of, probes_locally,
    process_open_url, pty_cells, AttachTarget, BackendView, Fallback, FreshStart, PaneBackend,
    PaneEnd, PathKind, PersistenceOptions, Shell, TargetView, UrlPath,
};
use crate::events::{
    at_work, coprocess_reply, glyph_status, opens_window, reload, resave, some_at_work, startup, url_place,
    watch, window_has_running_process, ChildState, QueryStatus, Reload, Resave, StartCause, Startup,
    UrlPlace, Watch,
};
use crate::opening::{
    advanced, attaching, fresh, launch_action, local_action, number_after, ConfigView, OpenEvent,
    OpeningView, StageView,
};
use crate::pane::{opt_text, texts};
use vstd::prelude::*;

verus! {

// ---------------------------------------------------------------------------
// Hosting.

/// A pane is behind a daemon exactly where it is attached to or panes are kept, and
/// never where it has to be local. What the settings say of the replay counts.
pub proof fn law_who_hosts_a_pane(
    attach: bool,
    persistence: Option<PersistenceOptions>,
    force_local: bool,
    ring_bytes: Option<usize>,
)
    requires
        call_ensures(hosting, (attach, persistence, force_local), ring_bytes),
    ensures
        force_local ==> ring_bytes is None,
        !force_local && persistence is Some ==> ring_bytes == Some(persistence->0.ring_bytes),
        !force_local && persistence is None && attach ==> ring_bytes == Some(1048576usize),
        !attach && persistence is None ==> ring_bytes is None,
{
}

/// Panes are kept with as much replay as the settings say, where sessions come back
/// and shells are to outlive the program; changes are saved at once in automatic
/// mode alone.
pub proof fn law_the_settings_keep_panes(
    session: &Session,
    options: Option<PersistenceOptions>,
    autosave: bool,
)
    requires
        call_ensures(persistence_of, (session,), options),
        call_ensures(autosave_of, (session,), autosave),
    ensures
        options is Some <==> session.persistent && session.restore != SessionRestore::Never,
        options is Some ==> options->0.ring_bytes == session.ring_bytes,
        autosave <==> session.restore == SessionRestore::Always,
{
}

/// A pane that was asked for by name is not replaced by a fresh one; any other
/// always opens.
pub proof fn law_a_failed_attach_is_told(attach: bool, then_: Fallback)
    requires
        call_ensures(fallback, (attach,), then_),
    ensures
        then_ == Fallback::Report <==> attach,
        then_ == Fallback::Local <==> !attach,
{
}

/// Only another machine is waited for longer.
pub proof fn law_another_machine_gets_more_time(attach: &Option<AttachTarget>, secs: u64)
    requires
        call_ensures(attach_timeout, (attach,), secs),
    ensures
        attach is Some && attach->0 is Ssh ==> secs == 6,
        !(attach is Some && attach->0 is Ssh) ==> secs == 2,
{
}

/// A dimension that the terminal can have is taken as it is.
pub proof fn law_a_dimension_is_kept_in_range(cells: usize, least: u16, n: u16)
    requires
        call_ensures(pty_cells, (cells, least), n),
    ensures
        cells <= 65535 ==> n == cells,
        cells > 65535 ==> n == least,
{
}

/// The pane that attached is the one that was asked for, in the directory that its
/// daemon told; its screen is replayed. On another machine it has no socket here.
pub proof fn law_an_attached_pane_is_the_one_asked_for(
    target: &AttachTarget,
    cwd: Option<String>,
    backend: PaneBackend,
)
    requires
        call_ensures(attached_backend, (target, cwd), backend),
    ensures
        backend@ is Ptyd,
        backend@->replayed,
        backend@->reported_cwd == opt_text(cwd),
        target@ is Unix ==> backend@->pane_id == target@->Unix_pane_id && backend@->socket
            == target@->socket && backend@->host is None,
        target@ is Ssh ==> backend@->pane_id == target@->Ssh_pane_id && backend@->host == Some(
            target@->host,
        ) && backend@->socket.len() == 0,
{
}

/// A program that quits leaves every shell behind a daemon running. A pane that is
/// closed ends its own daemon and no other: at its socket where it is local, over
/// the connection where it is not.
pub proof fn law_a_closed_pane_ends_its_shell(
    backend: &PaneBackend,
    quitting: bool,
    end: PaneEnd,
)
    requires
        call_ensures(pane_end, (backend, quitting), end),
    ensures
        backend@ is Local ==> end is KillShell,
        backend@ is Ptyd && quitting ==> end is Detach,
        backend@ is Ptyd && !quitting && backend@->host is Some ==> end is KillRemote,
        backend@ is Ptyd && !quitting && backend@->host is None ==> end is KillDaemon
            && end->KillDaemon_0@ == backend@->socket,
{
}

/// Processes of another machine are not looked for on this one.
pub proof fn law_only_local_processes_are_looked_up(backend: &PaneBackend, local: bool)
    requires
        call_ensures(probes_locally, (backend,), local),
    ensures
        backend@ is Local ==> local,
        backend@ is Ptyd ==> (local <==> backend@->host is None),
{
}

proof fn lemma_local_sockets(backends: Seq<BackendView>, socket: Seq<char>)
    ensures
        local_sockets_of(backends).contains(socket) <==> exists|i: int|
            0 <= i < backends.len() && (#[trigger] backends[i]) is Ptyd && backends[i]->host is None
                && backends[i]->socket == socket,
    decreases backends.len(),
{
    if backends.len() > 0 {
        let init = backends.drop_last();
        let last = backends.last();
        lemma_local_sockets(init, socket);
        let before = local_sockets_of(init);
        let all = local_sockets_of(backends);
        assert(backends[backends.len() - 1] == last);
        if before.contains(socket) {
            let k = before.index_of(socket);
            assert(all[k] == socket);
            let i = choose|i: int|
                0 <= i < init.len() && (#[trigger] init[i]) is Ptyd && init[i]->host is None
                    && init[i]->socket == socket;
            assert(backends[i] == init[i]);
        } else if last is Ptyd && last->host is None && last->socket == socket {
            assert(all[before.len() as int] == socket);
        } else {
            if all.contains(socket) {
                let k = all.index_of(socket);
                assert(before[k] == socket);
            }
            if exists|i: int|
                0 <= i < backends.len() && (#[trigger] backends[i]) is Ptyd && backends[i]->host is None
                    && backends[i]->socket == socket {
                let i = choose|i: int|
                    0 <= i < backends.len() && (#[trigger] backends[i]) is Ptyd
                        && backends[i]->host is None && backends[i]->socket == socket;
                assert(init[i] == backends[i]);
            }
        }
    }
}

/// The sockets of open panes are those of the local daemons among them, and no
/// other.
pub proof fn law_open_panes_hold_their_sockets(
    backends: &Vec<PaneBackend>,
    sockets: Vec<String>,
    socket: Seq<char>,
)
    requires
        call_ensures(live_local_sockets, (backends,), sockets),
    ensures
        texts(sockets@).contains(socket) <==> exists|i: int|
            0 <= i < backends@.len() && (#[trigger] backends@[i])@ is Ptyd && backends@[i]@->host is None
                && backends@[i]@->socket == socket,
{
    let views = crate::context::backend_views(backends@);
    lemma_local_sockets(views, socket);
    assert forall|i: int| 0 <= i < views.len() implies #[trigger] views[i] == backends@[i]@ by {}
    if exists|i: int|
        0 <= i < views.len() && (#[trigger] views[i]) is Ptyd && views[i]->host is None
            && views[i]->socket == socket {
        let i = choose|i: int|
            0 <= i < views.len() && (#[trigger] views[i]) is Ptyd && views[i]->host is None
                && views[i]->socket == socket;
        assert(backends@[i]@ == views[i]);
    }
    if exists|i: int|
        0 <= i < backends@.len() && (#[trigger] backends@[i])@ is Ptyd && backends@[i]@->host is None
            && backends@[i]@->socket == socket {
        let i = choose|i: int|
            0 <= i < backends@.len() && (#[trigger] backends@[i])@ is Ptyd && backends@[i]@->host is None
                && backends@[i]@->socket == socket;
        assert(views[i] == backends@[i]@);
    }
}

/// A fresh shell of a restored pane starts where the old one was, as long as that
/// is a directory, and not by a fork then; otherwise as the settings say.
pub proof fn law_a_fresh_shell_starts_where_it_was(
    saved_cwd: &Option<String>,
    is_dir: bool,
    working_dir: &Option<String>,
    use_fork: bool,
    start: FreshStart,
)
    requires
        call_ensures(fresh_start, (saved_cwd, is_dir, working_dir, use_fork), start),
    ensures
        saved_cwd is Some && is_dir ==> opt_text(start.working_dir) == Some(saved_cwd->0@)
            && !start.use_fork,
        saved_cwd is None || !is_dir ==> opt_text(start.working_dir) == opt_text(*working_dir)
            && start.use_fork == use_fork,
{
}

/// A file that is to be opened is handed to the editor, behind its other arguments;
/// a directory is where the shell starts; anything else changes nothing.
pub proof fn law_what_is_opened_decides_what_runs(
    shell: Shell,
    working_dir: Option<String>,
    editor: Shell,
    path: Option<(UrlPath, PathKind)>,
    result: (Shell, Option<String>),
)
    requires
        call_ensures(process_open_url, (shell, working_dir, editor, path), result),
    ensures
        path is Some && (path->0).1 == PathKind::File ==> {
            &&& result.0.program == editor.program
            &&& texts(result.0.args@).len() == editor.args@.len() + 1
            &&& texts(result.0.args@).last() == (path->0).0.shown@
            &&& texts(result.0.args@).drop_last() == texts(editor.args@)
            &&& result.1 == working_dir
        },
        path is Some && (path->0).1 == PathKind::Dir ==> result.0 == shell && opt_text(result.1)
            == Some((path->0).0.shown@),
        path is None || (path->0).1 == PathKind::Other ==> result.0 == shell && result.1
            == working_dir,
{
    if path is Some && (path->0).1 == PathKind::File {
        assert(texts(result.0.args@).drop_last() =~= texts(editor.args@));
    }
}

// ---------------------------------------------------------------------------
// Opening.

/// Whatever a pane runs is what its config says: its program with its arguments in
/// its directory, at its size. A fork takes no arguments and no directory.
pub proof fn law_a_pane_runs_what_its_config_says(c: ConfigView, ring_bytes: usize)
    ensures
        c.use_fork ==> local_action(c) is Fork && local_action(c)->Fork_program == c.program,
        !c.use_fork ==> {
            &&& local_action(c) is Start
            &&& local_action(c)->Start_program == c.program
            &&& local_action(c)->Start_args == c.args
            &&& local_action(c)->Start_working_dir == c.working_dir
            &&& c.columns <= 65535 ==> local_action(c)->Start_columns == c.columns
            &&& c.lines <= 65535 ==> local_action(c)->Start_rows == c.lines
            &&& c.columns > 65535 ==> local_action(c)->Start_columns == c.least_columns
            &&& c.lines > 65535 ==> local_action(c)->Start_rows == c.least_lines
        },
        c.use_fork && c.columns <= 65535 ==> local_action(c)->Fork_columns == c.columns,
        c.use_fork && c.lines <= 65535 ==> local_action(c)->Fork_rows == c.lines,
        launch_action(c, ring_bytes) is Launch,
        launch_action(c, ring_bytes)->Launch_program == c.program,
        launch_action(c, ring_bytes)->Launch_args == c.args,
        launch_action(c, ring_bytes)->Launch_working_dir == c.working_dir,
        launch_action(c, ring_bytes)->session_name == c.session_name,
        launch_action(c, ring_bytes)->ring_bytes == ring_bytes,
{
}

/// A fresh pane gets a daemon exactly where panes are kept.
pub proof fn law_a_fresh_pane_is_kept_where_panes_are(o: OpeningView, next: usize)
    ensures
        o.config.persistence is Some <==> fresh(o, next).2 is Launch,
        o.config.persistence is None ==> fresh(o, next).2 == local_action(o.config),
        fresh(o, next).0.route == next,
        next < usize::MAX ==> fresh(o, next).1 == next + 1,
{
}

/// An attach waits for its own daemon, for as long as that may take.
pub proof fn law_an_attach_is_to_its_daemon(o: OpeningView, target: TargetView, next: usize)
    ensures
        attaching(o, target, next).2 is Attach,
        attaching(o, target, next).2->target == target,
        attaching(o, target, next).2->secs == if target is Ssh {
            6u64
        } else {
            2u64
        },
        attaching(o, target, next).0.stage == StageView::Attaching(target),
{
}

/// A pane that opened has the number of its last try and the shell that was told.
pub proof fn law_an_opened_pane_is_the_one_tried(o: OpeningView, next: usize, event: OpenEvent)
    ensures
        ({
            let action = advanced(o, next, event).2;
            action is Opened ==> {
                &&& action->Opened_route == o.route
                &&& advanced(o, next, event).0.stage is Over
                &&& event is Started ==> action->Opened_shell_pid == event->Started_shell_pid
                    && action->backend is Local
                &&& event is Attached ==> action->Opened_shell_pid == event->Attached_shell_pid
                    && action->backend is Ptyd && action->backend->replayed
                &&& event is Launched ==> action->Opened_shell_pid == event->Launched_shell_pid
                    && action->backend is Ptyd && !action->backend->replayed
                    && action->backend->pane_id == event->pane_id@ && action->backend->socket
                    == event->socket@ && action->backend->host is None
                &&& event is Started || event is Attached || event is Launched
            }
        }),
{
}

/// Numbers go up by one and start over where they run out.
pub proof fn law_numbers_go_up(n: usize)
    ensures
        n < usize::MAX ==> number_after(n) == n + 1,
        n == usize::MAX ==> number_after(n) == 0,
{
}

// ---------------------------------------------------------------------------
// Events.

/// A program that ended counts however late that is seen; one that runs is waited
/// for as long as it may take, and ended then.
pub proof fn law_a_program_is_waited_for(
    state: ChildState,
    elapsed: u64,
    allowed: u64,
    step: Watch,
)
    requires
        call_ensures(watch, (state, elapsed, allowed), step),
    ensures
        step == Watch::Collect <==> state == ChildState::Ended,
        step == Watch::GiveUp <==> state == ChildState::Unknown,
        step == Watch::Kill <==> state == ChildState::Running && elapsed >= allowed,
        step == Watch::Wait <==> state == ChildState::Running && elapsed < allowed,
{
}

/// A coprocess that wrote nothing tells nothing.
pub proof fn law_silence_tells_nothing(bytes: &[u8], text: Option<String>)
    requires
        call_ensures(coprocess_reply, (bytes,), text),
    ensures
        text is None <==> bytes@.len() == 0,
{
}

/// Settings that cannot be read cost nothing that works: without any the old ones
/// stay, and without the rules alone only those do.
pub proof fn law_a_mistake_costs_nothing_that_works(
    settings_read: bool,
    rules_read: bool,
    what: Reload,
)
    requires
        call_ensures(reload, (settings_read, rules_read), what),
    ensures
        what == Reload::Keep <==> !settings_read,
        what == Reload::Take <==> settings_read && rules_read,
        what == Reload::TakeButRules <==> settings_read && !rules_read,
{
}

/// A program that is called up has a window then: it opens one where there is none.
pub proof fn law_a_program_called_up_has_a_window(
    cause: StartCause,
    windows: usize,
    opens: bool,
)
    requires
        call_ensures(opens_window, (cause, windows), opens),
    ensures
        cause == StartCause::Init || cause == StartCause::CreateWindow ==> opens,
        cause == StartCause::Reopen ==> (opens <==> windows == 0),
        cause == StartCause::Other ==> !opens,
{
}

/// A session that is named comes back whatever the mode. Otherwise a saved one comes
/// back in automatic mode, is asked for in asking mode, and stays away else.
pub proof fn law_a_start_restores_as_the_mode_says(
    named: bool,
    mode: SessionRestore,
    saved: bool,
    what: Startup,
)
    requires
        call_ensures(startup, (named, mode, saved), what),
    ensures
        what == Startup::Named <==> named,
        what == Startup::Restore <==> !named && saved && mode == SessionRestore::Always,
        what == Startup::Ask <==> !named && saved && mode == SessionRestore::Prompt,
        what == Startup::Fresh <==> !named && (!saved || mode == SessionRestore::Never),
{
}

/// Where nothing came back the file stays for another try. Otherwise it is written
/// anew: for all windows where there are more than one to write.
pub proof fn law_a_restore_is_written_back(
    restored: bool,
    had_extra: bool,
    extra_restored: bool,
    what: Resave,
)
    requires
        call_ensures(resave, (restored, had_extra, extra_restored), what),
    ensures
        what == Resave::Nothing <==> !restored && !extra_restored,
        extra_restored || (restored && had_extra) ==> what == Resave::All,
        restored && !had_extra && !extra_restored ==> what == Resave::One,
{
}

/// URLs are opened beside the tabs of a window that has the keyboard, of the first
/// such one, where the windowing system draws the tabs, and in windows of their own
/// else.
pub proof fn law_urls_open_beside_the_keyboard(
    native: bool,
    focused: &Vec<bool>,
    place: UrlPlace,
)
    requires
        call_ensures(url_place, (native, focused), place),
    ensures
        !native <==> place == UrlPlace::Windows,
        native && focused@.len() == 0 ==> place == UrlPlace::Nowhere,
        native && focused@.len() > 0 ==> place is TabsOf && place->0 < focused@.len(),
        native && focused@.contains(true) ==> focused@[place->0 as int] && forall|j: int|
            0 <= j < place->0 ==> !#[trigger] focused@[j],
        native && focused@.len() > 0 && !focused@.contains(true) ==> place == UrlPlace::TabsOf(0),
{
    if native && focused@.contains(true) {
        focused@.index_of_first_ensures(true);
        let i = focused@.index_of_first(true)->0;
        assert(place == UrlPlace::TabsOf(i as usize));
        assert forall|j: int| 0 <= j < place->0 implies !#[trigger] focused@[j] by {
            assert(focused@[j] != true);
        }
    }
}

/// A window is at work where one of its panes is: a local daemon's with a program
/// in the foreground, or one of another machine, of which that is not known.
pub proof fn law_a_window_is_at_work_where_a_pane_is(
    panes: &Vec<(PaneBackend, bool)>,
    busy: bool,
    i: int,
)
    requires
        call_ensures(window_has_running_process, (panes,), busy),
    ensures
        0 <= i < panes@.len() && panes@[i].0@ is Ptyd && panes@[i].1 ==> busy,
        0 <= i < panes@.len() && panes@[i].0@ is Ptyd && panes@[i].0@->host is Some ==> busy,
        (forall|j: int| 0 <= j < panes@.len() ==> (#[trigger] panes@[j]).0@ is Local) ==> !busy,
        (forall|j: int|
            0 <= j < panes@.len() ==> !(#[trigger] panes@[j]).1 && (panes@[j].0@ is Ptyd
                ==> panes@[j].0@->host is None)) ==> !busy,
{
    assert(busy == some_at_work(panes@));
    if 0 <= i < panes@.len() && panes@[i].0@ is Ptyd && (panes@[i].1 || panes@[i].0@->host is Some) {
        let pane = panes@[i];
        assert(at_work(pane.0@, pane.1));
    }
}

/// A glyph is told for each place where it is.
pub proof fn law_a_glyph_is_told_where_it_is(
    in_glossary: bool,
    in_system: bool,
    status: QueryStatus,
)
    requires
        call_ensures(glyph_status, (in_glossary, in_system), status),
    ensures
        in_glossary <==> status == QueryStatus::Glossary || status == QueryStatus::Both,
        in_system <==> status == QueryStatus::System || status == QueryStatus::Both,
{
}

} // verus!
