//! The command line: what the arguments ask for, what a listing shows, and
//! which panes a command acts on.
use crate::launch::{SpawnArgs, SpawnView};
use crate::pane::{
    is_valid_pane_id, opt_text, pane_file, resolve_pane_id, resolved_id, socket_path, texts,
    valid_pane_id, PaneMeta, SHORT_PANE_ID_LEN,
};
use crate::ring::DEFAULT_RING_BYTES;
use crate::text::{
    chars_of, ends_with, has_prefix, has_suffix, left_aligned, parse_number, parsed_number,
    push_left_aligned, push_right_aligned, right_aligned, same_text, signed_text, signed_to_text,
    starts_with, text_between,
};
use vstd::prelude::*;
use vstd::string::StringExecFns;
use vstd::utf8::encode_utf8;

verus! {

/// Seconds for which an exited shell's output is kept for a reattach.
pub const LINGER_REAP_GRACE_SECS: u64 = 300;

/// Seconds after which files without a daemon are stale.
pub const STALE_SECS: u64 = 60;

/// How a listing is ordered.
#[derive(Clone, Copy, Debug, PartialEq, Eq, Structural)]
pub enum SortKey {
    Session,
    Created,
    Id,
    Pid,
}

/// What the arguments ask for.
#[derive(Clone, Debug)]
pub enum Command {
    /// Not understood: the usage is shown.
    Usage,
    Spawn(SpawnArgs),
    Attach { stdio: bool, no_replay: bool, target: String },
    List { json: bool, full: bool, sort: SortKey },
    /// `--sort` without a known key.
    BadSort,
    Kill { id: String },
    /// Without a name: the panes outside named sessions.
    KillSession { dry_run: bool, name: Option<String> },
    /// `kill-session` with neither or both of a name and `--unnamed`.
    BadKillSession,
    Gc { dry_run: bool },
}

/// The mathematical value of a [`Command`].
pub enum CommandView {
    Usage,
    Spawn(SpawnView),
    Attach { stdio: bool, no_replay: bool, target: Seq<char> },
    List { json: bool, full: bool, sort: SortKey },
    BadSort,
    Kill { id: Seq<char> },
    KillSession { dry_run: bool, name: Option<Seq<char>> },
    BadKillSession,
    Gc { dry_run: bool },
}

impl View for Command {
    type V = CommandView;

    open spec fn view(&self) -> CommandView {
        match self {
            Command::Usage => CommandView::Usage,
            Command::Spawn(args) => CommandView::Spawn(args@),
            Command::Attach { stdio, no_replay, target } => CommandView::Attach {
                stdio: *stdio,
                no_replay: *no_replay,
                target: target@,
            },
            Command::List { json, full, sort } => CommandView::List {
                json: *json,
                full: *full,
                sort: *sort,
            },
            Command::BadSort => CommandView::BadSort,
            Command::Kill { id } => CommandView::Kill { id: id@ },
            Command::KillSession { dry_run, name } => CommandView::KillSession {
                dry_run: *dry_run,
                name: opt_text(*name),
            },
            Command::BadKillSession => CommandView::BadKillSession,
            Command::Gc { dry_run } => CommandView::Gc { dry_run: *dry_run },
        }
    }
}

/// The arguments from `n` on, none where there are fewer.
pub open spec fn after(args: Seq<Seq<char>>, n: int) -> Seq<Seq<char>> {
    if n <= args.len() {
        args.skip(n)
    } else {
        Seq::empty()
    }
}

/// The argument behind an option.
pub open spec fn value_of(args: Seq<Seq<char>>) -> Option<Seq<char>> {
    if args.len() > 1 {
        Some(args[1])
    } else {
        None
    }
}

/// Where the first equals sign stands.
pub open spec fn equals_at(s: Seq<char>) -> Option<int>
    decreases s.len(),
{
    if s.len() == 0 {
        None
    } else if s[0] == '=' {
        Some(0)
    } else {
        match equals_at(s.skip(1)) {
            Some(i) => Some(i + 1),
            None => None,
        }
    }
}

/// The environment with a `NAME=VALUE` argument; one without the sign is
/// ignored.
pub open spec fn with_variable(
    env: Seq<(Seq<char>, Seq<char>)>,
    argument: Option<Seq<char>>,
) -> Seq<(Seq<char>, Seq<char>)> {
    match argument {
        Some(kv) => match equals_at(kv) {
            Some(i) => env.push((kv.take(i), kv.skip(i + 1))),
            None => env,
        },
        None => env,
    }
}

/// The ring size an argument gives, the default where it is no number.
pub open spec fn ring_size_of(argument: Option<Seq<char>>) -> nat {
    match argument {
        Some(text) => match parsed_number(text, usize::MAX as nat) {
            Some(n) => n,
            None => DEFAULT_RING_BYTES as nat,
        },
        None => DEFAULT_RING_BYTES as nat,
    }
}

/// The options of `spawn`, as far as the program.
pub open spec fn spawn_options(v: SpawnView, args: Seq<Seq<char>>) -> Option<SpawnView>
    decreases args.len(),
{
    if args.len() == 0 {
        Some(v)
    } else if args[0] == "--pane-id"@ {
        spawn_options(SpawnView { pane_id: value_of(args), ..v }, after(args, 2))
    } else if args[0] == "--cwd"@ {
        spawn_options(SpawnView { cwd: value_of(args), ..v }, after(args, 2))
    } else if args[0] == "--session"@ {
        spawn_options(SpawnView { session: value_of(args), ..v }, after(args, 2))
    } else if args[0] == "--ring-size"@ {
        spawn_options(SpawnView { ring_size: ring_size_of(value_of(args)), ..v }, after(args, 2))
    } else if args[0] == "--env"@ {
        spawn_options(
            SpawnView { env: with_variable(v.env, value_of(args)), ..v },
            after(args, 2),
        )
    } else if args[0] == "--"@ {
        Some(
            SpawnView {
                program: match value_of(args) {
                    Some(program) => program,
                    None => Seq::empty(),
                },
                args: after(args, 2),
                ..v
            },
        )
    } else {
        None
    }
}

pub open spec fn no_spawn_options() -> SpawnView {
    SpawnView {
        pane_id: None,
        cwd: None,
        ring_size: DEFAULT_RING_BYTES as nat,
        env: Seq::empty(),
        session: None,
        program: Seq::empty(),
        args: Seq::empty(),
    }
}

/// What `spawn` asks for. Without a program the login shell is started.
pub open spec fn spawn_command(args: Seq<Seq<char>>, shell: Option<Seq<char>>) -> CommandView {
    match spawn_options(no_spawn_options(), args) {
        None => CommandView::Usage,
        Some(v) => CommandView::Spawn(
            SpawnView {
                program: if v.program.len() > 0 {
                    v.program
                } else {
                    match shell {
                        Some(program) => program,
                        None => "/bin/sh"@,
                    }
                },
                ..v
            },
        ),
    }
}

/// How many options stand in front.
pub open spec fn flag_count(args: Seq<Seq<char>>) -> nat
    decreases args.len(),
{
    if args.len() > 0 && starts_with(args[0], "--"@) {
        1 + flag_count(args.skip(1))
    } else {
        0
    }
}

pub open spec fn attach_command(args: Seq<Seq<char>>) -> CommandView {
    let n = flag_count(args) as int;
    if n < args.len() {
        CommandView::Attach {
            stdio: args.take(n).contains("--stdio"@),
            no_replay: args.take(n).contains("--no-replay"@),
            target: args[n],
        }
    } else {
        CommandView::Usage
    }
}

pub open spec fn sort_key_of(text: Seq<char>) -> Option<SortKey> {
    if text == "session"@ {
        Some(SortKey::Session)
    } else if text == "created"@ {
        Some(SortKey::Created)
    } else if text == "id"@ {
        Some(SortKey::Id)
    } else if text == "pid"@ {
        Some(SortKey::Pid)
    } else {
        None
    }
}

pub open spec fn list_command(
    json: bool,
    full: bool,
    sort: SortKey,
    args: Seq<Seq<char>>,
) -> CommandView
    decreases args.len(),
{
    if args.len() == 0 {
        CommandView::List { json, full, sort }
    } else if args[0] == "--json"@ {
        list_command(true, full, sort, args.skip(1))
    } else if args[0] == "--full"@ {
        list_command(json, true, sort, args.skip(1))
    } else if args[0] == "--sort"@ {
        match value_of(args) {
            Some(text) => match sort_key_of(text) {
                Some(key) => list_command(json, full, key, after(args, 2)),
                None => CommandView::BadSort,
            },
            None => CommandView::BadSort,
        }
    } else {
        CommandView::Usage
    }
}

/// The last argument that is none of the two options.
pub open spec fn session_name(args: Seq<Seq<char>>) -> Option<Seq<char>>
    decreases args.len(),
{
    if args.len() == 0 {
        None
    } else if args.last() != "--dry-run"@ && args.last() != "--unnamed"@ {
        Some(args.last())
    } else {
        session_name(args.drop_last())
    }
}

pub open spec fn kill_session_command(args: Seq<Seq<char>>) -> CommandView {
    let unnamed = args.contains("--unnamed"@);
    let name = session_name(args);
    if unnamed == (name is Some) {
        CommandView::BadKillSession
    } else {
        CommandView::KillSession { dry_run: args.contains("--dry-run"@), name }
    }
}

/// What the arguments ask for.
pub open spec fn command_of(args: Seq<Seq<char>>, shell: Option<Seq<char>>) -> CommandView {
    if args.len() == 0 {
        CommandView::Usage
    } else if args[0] == "spawn"@ {
        spawn_command(args.skip(1), shell)
    } else if args[0] == "attach"@ {
        attach_command(args.skip(1))
    } else if args[0] == "list"@ {
        list_command(false, false, SortKey::Session, args.skip(1))
    } else if args[0] == "kill"@ {
        match value_of(args) {
            Some(id) => CommandView::Kill { id },
            None => CommandView::Usage,
        }
    } else if args[0] == "kill-session"@ {
        kill_session_command(args.skip(1))
    } else if args[0] == "gc"@ {
        CommandView::Gc { dry_run: value_of(args) == Some("--dry-run"@) }
    } else {
        CommandView::Usage
    }
}

/// Where an argument ends at its first equals sign.
fn find_equals(chars: &Vec<char>) -> (at: Option<usize>)
    ensures
        match equals_at(chars@) {
            Some(i) => at matches Some(n) && n == i && n < chars@.len(),
            None => at is None,
        },
{
    let mut i: usize = 0;
    assert(chars@.skip(0) =~= chars@);
    while i < chars.len()
        invariant
            i <= chars@.len(),
            equals_at(chars@) == match equals_at(chars@.skip(i as int)) {
                Some(k) => Some(k + i),
                None => None,
            },
        decreases chars.len() - i,
    {
        assert(chars@.skip(i as int).skip(1) =~= chars@.skip(i as int + 1));
        if chars[i] == '=' {
            return Some(i);
        }
        i = i + 1;
    }
    None
}

fn push_variable(env: &mut Vec<(String, String)>, argument: &str)
    ensures
        crate::launch::pairs(final(env)@) == with_variable(
            crate::launch::pairs(old(env)@),
            Some(argument@),
        ),
{
    let chars = chars_of(argument);
    if let Some(i) = find_equals(&chars) {
        let ghost before = crate::launch::pairs(env@);
        assert(chars.len() == chars@.len());
        let name = text_between(&chars, 0, i);
        let value = text_between(&chars, i + 1, chars.len());
        assert(name@ =~= argument@.take(i as int));
        assert(value@ =~= argument@.skip(i as int + 1));
        env.push((name, value));
        assert(crate::launch::pairs(env@) =~= before.push(
            (argument@.take(i as int), argument@.skip(i as int + 1)),
        ));
    }
}

/// The argument behind an option.
fn value_at(args: &Vec<String>, i: usize) -> (value: Option<String>)
    requires
        i < args@.len(),
    ensures
        opt_text(value) == value_of(texts(args@).skip(i as int)),
{
    if args.len() - i > 1 {
        Some(args[i + 1].clone())
    } else {
        None
    }
}

fn parse_spawn(args: &Vec<String>, from: usize) -> (parsed: Option<SpawnArgs>)
    requires
        from <= args@.len(),
    ensures
        match spawn_options(no_spawn_options(), texts(args@).skip(from as int)) {
            Some(v) => parsed matches Some(p) && p@ == v,
            None => parsed is None,
        },
{
    let mut spawn = SpawnArgs {
        pane_id: None,
        cwd: None,
        ring_size: DEFAULT_RING_BYTES,
        env: Vec::new(),
        session: None,
        program: String::new(),
        args: Vec::new(),
    };
    assert(spawn@ =~= no_spawn_options());
    let mut i: usize = from;
    while i < args.len()
        invariant
            from <= i <= args@.len(),
            spawn_options(no_spawn_options(), texts(args@).skip(from as int)) == spawn_options(
                spawn@,
                texts(args@).skip(i as int),
            ),
        decreases args.len() - i,
    {
        let ghost rest = texts(args@).skip(i as int);
        let ghost start = spawn@;
        let option = args[i].as_str();
        assert(rest[0] == option@);
        let next: usize = if args.len() - i < 2 {
            args.len()
        } else {
            i + 2
        };
        assert(after(rest, 2) =~= texts(args@).skip(next as int));
        if same_text(option, "--pane-id") {
            spawn.pane_id = value_at(args, i);
            assert(spawn@ =~= SpawnView { pane_id: value_of(rest), ..start });
        } else if same_text(option, "--cwd") {
            spawn.cwd = value_at(args, i);
            assert(spawn@ =~= SpawnView { cwd: value_of(rest), ..start });
        } else if same_text(option, "--session") {
            spawn.session = value_at(args, i);
            assert(spawn@ =~= SpawnView { session: value_of(rest), ..start });
        } else if same_text(option, "--ring-size") {
            spawn.ring_size = match value_at(args, i) {
                Some(text) => match parse_number(text.as_str(), usize::MAX as u64) {
                    Some(n) => n as usize,
                    None => DEFAULT_RING_BYTES,
                },
                None => DEFAULT_RING_BYTES,
            };
            assert(spawn@ =~= SpawnView { ring_size: ring_size_of(value_of(rest)), ..start });
        } else if same_text(option, "--env") {
            if let Some(text) = value_at(args, i) {
                push_variable(&mut spawn.env, text.as_str());
            }
            assert(spawn@ =~= SpawnView {
                env: with_variable(start.env, value_of(rest)),
                ..start
            });
        } else if same_text(option, "--") {
            spawn.program = match value_at(args, i) {
                Some(program) => program,
                None => String::new(),
            };
            spawn.args = texts_from(args, next);
            assert(spawn@ =~= SpawnView {
                program: match value_of(rest) {
                    Some(program) => program,
                    None => Seq::empty(),
                },
                args: after(rest, 2),
                ..start
            });
            return Some(spawn);
        } else {
            return None;
        }
        i = next;
    }
    Some(spawn)
}

/// The arguments from `from` on.
fn texts_from(args: &Vec<String>, from: usize) -> (out: Vec<String>)
    requires
        from <= args@.len(),
    ensures
        texts(out@) == texts(args@).skip(from as int),
{
    let mut out: Vec<String> = Vec::new();
    let mut i: usize = from;
    while i < args.len()
        invariant
            from <= i <= args@.len(),
            out@.len() == i - from,
            forall|j: int| 0 <= j < i - from ==> (#[trigger] out@[j])@ == args@[from + j]@,
        decreases args.len() - i,
    {
        out.push(args[i].clone());
        i = i + 1;
    }
    assert(texts(out@) =~= texts(args@).skip(from as int));
    out
}

/// Whether an argument between `from` and `to` is `wanted`.
fn has_argument(args: &Vec<String>, from: usize, to: usize, wanted: &str) -> (found: bool)
    requires
        from <= to <= args@.len(),
    ensures
        found == texts(args@).subrange(from as int, to as int).contains(wanted@),
{
    let ghost part = texts(args@).subrange(from as int, to as int);
    let mut i: usize = from;
    while i < to
        invariant
            from <= i <= to <= args@.len(),
            part == texts(args@).subrange(from as int, to as int),
            forall|j: int| 0 <= j < i - from ==> #[trigger] part[j] != wanted@,
        decreases to - i,
    {
        if same_text(args[i].as_str(), wanted) {
            assert(part[i - from] == wanted@);
            return true;
        }
        i = i + 1;
    }
    false
}

fn parse_attach(args: &Vec<String>) -> (command: Command)
    requires
        args@.len() > 0,
    ensures
        command@ == attach_command(texts(args@).skip(1)),
{
    let ghost rest = texts(args@).skip(1);
    let mut n: usize = 1;
    assert(rest.skip(0) =~= rest);
    while n < args.len() && has_prefix(args[n].as_str(), "--")
        invariant
            1 <= n <= args@.len(),
            rest == texts(args@).skip(1),
            flag_count(rest) == n - 1 + flag_count(rest.skip(n - 1)),
        decreases args.len() - n,
    {
        assert(rest.skip(n - 1)[0] == args@[n as int]@);
        assert(rest.skip(n - 1).skip(1) =~= rest.skip(n as int));
        n = n + 1;
    }
    if n < args.len() {
        assert(rest.skip(n - 1)[0] == args@[n as int]@);
    }
    let stdio: bool = has_argument(args, 1, n, "--stdio");
    let no_replay: bool = has_argument(args, 1, n, "--no-replay");
    assert(texts(args@).subrange(1, n as int) =~= rest.take(n - 1));
    if n < args.len() {
        Command::Attach { stdio, no_replay, target: args[n].clone() }
    } else {
        Command::Usage
    }
}

fn parse_sort_key(text: &str) -> (key: Option<SortKey>)
    ensures
        key == sort_key_of(text@),
{
    if same_text(text, "session") {
        Some(SortKey::Session)
    } else if same_text(text, "created") {
        Some(SortKey::Created)
    } else if same_text(text, "id") {
        Some(SortKey::Id)
    } else if same_text(text, "pid") {
        Some(SortKey::Pid)
    } else {
        None
    }
}

fn parse_list(args: &Vec<String>) -> (command: Command)
    requires
        args@.len() > 0,
    ensures
        command@ == list_command(false, false, SortKey::Session, texts(args@).skip(1)),
{
    let mut json = false;
    let mut full = false;
    let mut sort = SortKey::Session;
    let mut i: usize = 1;
    while i < args.len()
        invariant
            1 <= i <= args@.len(),
            list_command(false, false, SortKey::Session, texts(args@).skip(1)) == list_command(
                json,
                full,
                sort,
                texts(args@).skip(i as int),
            ),
        decreases args.len() - i,
    {
        let ghost rest = texts(args@).skip(i as int);
        assert(rest[0] == args@[i as int]@);
        assert(rest.skip(1) =~= texts(args@).skip(i as int + 1));
        if same_text(args[i].as_str(), "--json") {
            json = true;
            i = i + 1;
        } else if same_text(args[i].as_str(), "--full") {
            full = true;
            i = i + 1;
        } else if same_text(args[i].as_str(), "--sort") {
            match value_at(args, i) {
                Some(text) => match parse_sort_key(text.as_str()) {
                    Some(key) => {
                        sort = key;
                        assert(after(rest, 2) =~= texts(args@).skip(i as int + 2));
                        i = i + 2;
                    },
                    None => {
                        return Command::BadSort;
                    },
                },
                None => {
                    return Command::BadSort;
                },
            }
        } else {
            return Command::Usage;
        }
    }
    Command::List { json, full, sort }
}

fn parse_kill_session(args: &Vec<String>) -> (command: Command)
    requires
        args@.len() > 0,
    ensures
        command@ == kill_session_command(texts(args@).skip(1)),
{
    let ghost rest = texts(args@).skip(1);
    let dry_run: bool = has_argument(args, 1, args.len(), "--dry-run");
    let unnamed: bool = has_argument(args, 1, args.len(), "--unnamed");
    assert(texts(args@).subrange(1, args@.len() as int) =~= rest);
    let mut name: Option<String> = None;
    let mut i: usize = 1;
    assert(rest.take(0) =~= Seq::<Seq<char>>::empty());
    while i < args.len()
        invariant
            1 <= i <= args@.len(),
            rest == texts(args@).skip(1),
            opt_text(name) == session_name(rest.take(i - 1)),
        decreases args.len() - i,
    {
        proof {
            let part = rest.take(i as int);
            assert(part.drop_last() =~= rest.take(i - 1));
            assert(part.last() == args@[i as int]@);
        }
        if !same_text(args[i].as_str(), "--dry-run") && !same_text(args[i].as_str(), "--unnamed") {
            name = Some(args[i].clone());
        }
        i = i + 1;
    }
    assert(rest.take(i - 1) =~= rest);
    if unnamed == name.is_some() {
        Command::BadKillSession
    } else {
        Command::KillSession { dry_run, name }
    }
}

/// Reads the arguments. `shell` is the user's login shell.
pub fn parse_args(args: &Vec<String>, shell: Option<String>) -> (command: Command)
    ensures
        command@ == command_of(texts(args@), opt_text(shell)),
{
    if args.len() == 0 {
        return Command::Usage;
    }
    let word = args[0].as_str();
    assert(texts(args@)[0] == word@);
    assert(texts(args@).skip(0) =~= texts(args@));
    if same_text(word, "spawn") {
        match parse_spawn(args, 1) {
            None => Command::Usage,
            Some(parsed) => {
                let mut spawn = parsed;
                let ghost v = spawn@;
                if spawn.program.as_str().is_empty() {
                    spawn.program = match shell {
                        Some(program) => program,
                        None => "/bin/sh".to_owned(),
                    };
                }
                assert(spawn@ =~= SpawnView { program: spawn@.program, ..v });
                Command::Spawn(spawn)
            },
        }
    } else if same_text(word, "attach") {
        parse_attach(args)
    } else if same_text(word, "list") {
        parse_list(args)
    } else if same_text(word, "kill") {
        match value_at(args, 0) {
            Some(id) => Command::Kill { id },
            None => Command::Usage,
        }
    } else if same_text(word, "kill-session") {
        parse_kill_session(args)
    } else if same_text(word, "gc") {
        let dry_run: bool = match value_at(args, 0) {
            Some(text) => same_text(text.as_str(), "--dry-run"),
            None => false,
        };
        Command::Gc { dry_run }
    } else {
        Command::Usage
    }
}

/// Why a target cannot be attached to.
#[derive(Clone, Copy, Debug, PartialEq, Eq, Structural)]
pub struct UnknownTarget;

/// The socket a target stands for: a pane id or a unique prefix of one, or an
/// existing socket file.
pub open spec fn socket_of(
    target: Seq<char>,
    base: Seq<u8>,
    panes: Seq<PaneMeta>,
    exists_: bool,
) -> Option<Seq<u8>> {
    match resolved_id(target, panes) {
        Some(id) => Some(pane_file(base, id, ".sock"@)),
        None => if ends_with(target, ".sock"@) && exists_ {
            Some(encode_utf8(target))
        } else {
            None
        },
    }
}

/// Finds the socket to attach to. `exists_` tells whether a file of the
/// target's name exists.
pub fn resolve_socket(target: &str, base: &[u8], panes: &Vec<PaneMeta>, exists_: bool) -> (socket:
    Result<Vec<u8>, UnknownTarget>)
    ensures
        match socket_of(target@, base@, panes@, exists_) {
            Some(path) => socket matches Ok(s) && s@ == path,
            None => socket is Err,
        },
{
    match resolve_pane_id(panes, target) {
        Some(id) => Ok(socket_path(base, id.as_str())),
        None => if has_suffix(target, ".sock") && exists_ {
            let mut path: Vec<u8> = Vec::new();
            path.extend_from_slice(target.as_bytes());
            assert(path@ =~= encode_utf8(target@));
            Ok(path)
        } else {
            Err(UnknownTarget)
        },
    }
}

/// Whether an exited pane's daemon may be reaped. The grace runs from the exit;
/// where that was not recorded, from the creation.
pub open spec fn reap_due(m: PaneMeta, now: int) -> bool {
    now - (match m.exited_at {
        Some(at) => at as int,
        None => m.created_at as int,
    }) > LINGER_REAP_GRACE_SECS
}

pub fn linger_reap_due(m: &PaneMeta, now: u64) -> (due: bool)
    ensures
        due == reap_due(*m, now as int),
{
    let since: u64 = match m.exited_at {
        Some(at) => at,
        None => m.created_at,
    };
    now > since && now - since > LINGER_REAP_GRACE_SECS
}

/// What garbage collection does with a pane.
#[derive(Clone, Copy, Debug, PartialEq, Eq, Structural)]
pub enum GcAction {
    Keep,
    /// The daemon is gone: its files are removed.
    RemoveFiles,
    /// The shell has exited and nobody came back: the daemon is ended.
    Reap,
}

pub fn gc_action(m: &PaneMeta, daemon_alive: bool, reachable: bool, now: u64) -> (action: GcAction)
    ensures
        action == if !daemon_alive && !reachable && now - m.created_at > STALE_SECS {
            GcAction::RemoveFiles
        } else if m.exited_status is Some && reachable && reap_due(*m, now as int) {
            GcAction::Reap
        } else {
            GcAction::Keep
        },
{
    if !daemon_alive && !reachable && now > m.created_at && now - m.created_at > STALE_SECS {
        GcAction::RemoveFiles
    } else if m.exited_status.is_some() && reachable && linger_reap_due(m, now) {
        GcAction::Reap
    } else {
        GcAction::Keep
    }
}

/// The pane whose socket was left behind without metadata: nothing answers on
/// it, and it is older than the moment between making a socket and recording
/// its pane.
pub fn orphaned_socket(file_name: &str, has_meta: bool, age: Option<u64>, reachable: bool) -> (id:
    Option<String>)
    ensures
        match id {
            Some(i) => {
                &&& file_name@ == i@ + ".sock"@
                &&& valid_pane_id(i@)
                &&& !has_meta
                &&& age matches Some(a) && a > STALE_SECS
                &&& !reachable
            },
            None => has_meta || reachable || !(age matches Some(a) && a > STALE_SECS) || !(ends_with(
                file_name@,
                ".sock"@,
            ) && valid_pane_id(file_name@.take(file_name@.len() - ".sock"@.len()))),
        },
{
    if has_meta || reachable || !has_suffix(file_name, ".sock") {
        return None;
    }
    match age {
        Some(a) => if a <= STALE_SECS {
            return None;
        },
        None => {
            return None;
        },
    }
    proof {
        reveal_strlit(".sock");
    }
    let chars = chars_of(file_name);
    let id = text_between(&chars, 0, chars.len() - 5);
    proof {
        assert(id@ =~= file_name@.take(file_name@.len() - 5));
        assert(file_name@ =~= id@ + file_name@.skip(file_name@.len() - 5));
    }
    if is_valid_pane_id(id.as_str()) {
        Some(id)
    } else {
        None
    }
}

/// The session tag of a pane; an empty one counts as none.
pub open spec fn tag_of(m: PaneMeta) -> Option<Seq<char>> {
    match m.session {
        Some(tag) => if tag@.len() > 0 {
            Some(tag@)
        } else {
            None
        },
        None => None,
    }
}

/// Whether `kill-session` means a pane.
pub fn in_session(m: &PaneMeta, name: &Option<String>) -> (wanted: bool)
    ensures
        wanted == match opt_text(*name) {
            Some(n) => tag_of(*m) == Some(n),
            None => tag_of(*m) is None,
        },
{
    let tag: Option<&String> = match &m.session {
        Some(tag) => if tag.as_str().is_empty() {
            None
        } else {
            Some(tag)
        },
        None => None,
    };
    match (name, tag) {
        (Some(n), Some(t)) => same_text(n.as_str(), t.as_str()),
        (Some(_), None) => false,
        (None, Some(_)) => false,
        (None, None) => true,
    }
}

/// Whether a character is a control character.
pub open spec fn is_control(c: char) -> bool {
    c < ' ' || '\u{7f}' <= c <= '\u{9f}'
}

/// A text with its control characters replaced: names and directories come
/// from other programs and must not reach the terminal as escape sequences.
pub open spec fn sanitized(text: Seq<char>) -> Seq<char> {
    Seq::new(
        text.len(),
        |i: int|
            if is_control(text[i]) {
                '?'
            } else {
                text[i]
            },
    )
}

pub fn sanitize(text: &str) -> (out: String)
    ensures
        out@ == sanitized(text@),
{
    let chars = chars_of(text);
    let mut out = String::new();
    let mut i: usize = 0;
    while i < chars.len()
        invariant
            i <= chars@.len(),
            chars@ == text@,
            out@ =~= sanitized(text@).take(i as int),
        decreases chars.len() - i,
    {
        let c: char = chars[i];
        if c < ' ' || '\u{7f}' <= c && c <= '\u{9f}' {
            out.push('?');
        } else {
            out.push(c);
        }
        i = i + 1;
    }
    out
}

/// What a listing knows of a pane beyond its metadata.
#[derive(Clone, Debug)]
pub struct PaneFacts {
    /// Whether its daemon is alive.
    pub alive: bool,
    /// The program in the foreground of its terminal.
    pub foreground: Option<String>,
    /// When it was created, in local time.
    pub created: String,
}

/// The foreground program of a pane, where that can be told: the shell of a
/// dead daemon may be a process of somebody else by now.
pub open spec fn shown_foreground(m: PaneMeta, f: PaneFacts) -> Option<Seq<char>> {
    if m.exited_status is None && f.alive {
        opt_text(f.foreground)
    } else {
        None
    }
}

pub open spec fn state_text(m: PaneMeta, f: PaneFacts) -> Seq<char> {
    match m.exited_status {
        Some(code) => "exited("@ + signed_text(code as int) + ")"@,
        None => if f.alive {
            "running"@
        } else {
            "dead"@
        },
    }
}

/// What a pane is doing: its foreground program, else its directory.
pub open spec fn activity_text(m: PaneMeta, f: PaneFacts) -> Seq<char> {
    match shown_foreground(m, f) {
        Some(program) => sanitized(program),
        None => match m.cwd {
            Some(cwd) => sanitized(cwd@),
            None => "-"@,
        },
    }
}

pub open spec fn session_text(m: PaneMeta) -> Seq<char> {
    seq!['['] + sanitized(
        match m.session {
            Some(tag) => tag@,
            None => "-"@,
        },
    ) + seq![']']
}

/// The first `n` characters of a text.
pub open spec fn first_chars(text: Seq<char>, n: int) -> Seq<char> {
    if n < text.len() {
        text.take(n)
    } else {
        text
    }
}

/// One line of a listing.
pub open spec fn row_text(m: PaneMeta, f: PaneFacts, id_width: int) -> Seq<char> {
    left_aligned(first_chars(m.pane_id@, id_width), id_width) + "  "@ + left_aligned(
        state_text(m, f),
        12,
    ) + "  "@ + right_aligned(signed_text(m.shell_pid as int), 8) + "  "@ + left_aligned(
        session_text(m),
        14,
    ) + "  "@ + left_aligned(activity_text(m, f), 40) + "  "@ + f.created@
}

pub open spec fn header_text(id_width: int) -> Seq<char> {
    left_aligned("PANE ID"@, id_width) + "  "@ + left_aligned("STATE"@, 12) + "  "@ + right_aligned(
        "PID"@,
        8,
    ) + "  "@ + left_aligned("SESSION"@, 14) + "  "@ + left_aligned("ACTIVITY"@, 40)
        + "  CREATED"@
}

/// Whether two panes have the same short id.
pub open spec fn short_ids_collide(panes: Seq<PaneMeta>) -> bool {
    exists|i: int, j: int|
        0 <= i < j < panes.len() && first_chars(
            (#[trigger] panes[i]).pane_id@,
            SHORT_PANE_ID_LEN as int,
        ) == first_chars((#[trigger] panes[j]).pane_id@, SHORT_PANE_ID_LEN as int)
}

/// The id column: short, unless that is ambiguous or the whole id is asked for.
pub open spec fn id_width_of(panes: Seq<PaneMeta>, full: bool) -> int {
    if full || short_ids_collide(panes) {
        32
    } else {
        8
    }
}

/// Alphabetical order: negative, zero or positive.
pub open spec fn lex_order(a: Seq<char>, b: Seq<char>) -> int
    decreases a.len(),
{
    if a.len() == 0 && b.len() == 0 {
        0
    } else if a.len() == 0 {
        -1
    } else if b.len() == 0 {
        1
    } else if a[0] < b[0] {
        -1
    } else if a[0] > b[0] {
        1
    } else {
        lex_order(a.skip(1), b.skip(1))
    }
}

pub open spec fn int_order(a: int, b: int) -> int {
    if a < b {
        -1
    } else if a > b {
        1
    } else {
        0
    }
}

/// The order of two panes in a listing. By session: named sessions
/// alphabetically, then panes without one; panes of one session by creation.
pub open spec fn pane_order(key: SortKey, a: PaneMeta, b: PaneMeta) -> int {
    let by_created = int_order(a.created_at as int, b.created_at as int);
    match key {
        SortKey::Created => by_created,
        SortKey::Id => lex_order(a.pane_id@, b.pane_id@),
        SortKey::Pid => if a.shell_pid != b.shell_pid {
            int_order(a.shell_pid as int, b.shell_pid as int)
        } else {
            by_created
        },
        SortKey::Session => match (tag_of(a), tag_of(b)) {
            (Some(x), Some(y)) => if lex_order(x, y) != 0 {
                lex_order(x, y)
            } else {
                by_created
            },
            (Some(_), None) => -1,
            (None, Some(_)) => 1,
            (None, None) => by_created,
        },
    }
}

/// Whether pane `i` is listed before pane `j`: panes of equal rank as they came.
pub open spec fn listed_before(key: SortKey, panes: Seq<PaneMeta>, i: int, j: int) -> bool {
    pane_order(key, panes[i], panes[j]) < 0 || pane_order(key, panes[i], panes[j]) == 0 && i < j
}

/// Whether `order` lists every pane once, in order.
pub open spec fn is_listing_order(key: SortKey, panes: Seq<PaneMeta>, order: Seq<usize>) -> bool {
    &&& order.len() == panes.len()
    &&& forall|k: int| 0 <= k < order.len() ==> (#[trigger] order[k]) < panes.len()
    &&& forall|k: int, l: int|
        0 <= k < l < order.len() ==> listed_before(
            key,
            panes,
            #[trigger] order[k] as int,
            #[trigger] order[l] as int,
        )
}

pub(crate) proof fn lemma_lex_antisymmetric(a: Seq<char>, b: Seq<char>)
    ensures
        lex_order(a, b) == -lex_order(b, a),
        -1 <= lex_order(a, b) <= 1,
        lex_order(a, b) == 0 <==> a == b,
    decreases a.len(),
{
    if a.len() == 0 || b.len() == 0 {
        if a.len() == b.len() {
            assert(a =~= b);
        }
    } else if a[0] == b[0] {
        lemma_lex_antisymmetric(a.skip(1), b.skip(1));
        if lex_order(a, b) == 0 {
            assert(a =~= seq![a[0]] + a.skip(1));
            assert(b =~= seq![b[0]] + b.skip(1));
        }
    }
}

pub(crate) proof fn lemma_lex_transitive(a: Seq<char>, b: Seq<char>, c: Seq<char>)
    requires
        lex_order(a, b) < 0,
        lex_order(b, c) < 0,
    ensures
        lex_order(a, c) < 0,
    decreases a.len(),
{
    if a.len() > 0 && b.len() > 0 && c.len() > 0 && a[0] == b[0] && b[0] == c[0] {
        lemma_lex_transitive(a.skip(1), b.skip(1), c.skip(1));
    }
}

/// Listing order is strict and total.
proof fn lemma_listed_total(key: SortKey, panes: Seq<PaneMeta>, i: int, j: int)
    requires
        i != j,
    ensures
        listed_before(key, panes, i, j) <==> !listed_before(key, panes, j, i),
{
    let a = panes[i];
    let b = panes[j];
    lemma_lex_antisymmetric(a.pane_id@, b.pane_id@);
    if let (Some(x), Some(y)) = (tag_of(a), tag_of(b)) {
        lemma_lex_antisymmetric(x, y);
    }
}

proof fn lemma_listed_transitive(key: SortKey, panes: Seq<PaneMeta>, i: int, j: int, k: int)
    requires
        listed_before(key, panes, i, j),
        listed_before(key, panes, j, k),
    ensures
        listed_before(key, panes, i, k),
{
    let a = panes[i];
    let b = panes[j];
    let c = panes[k];
    lemma_lex_antisymmetric(a.pane_id@, b.pane_id@);
    lemma_lex_antisymmetric(b.pane_id@, c.pane_id@);
    lemma_lex_antisymmetric(a.pane_id@, c.pane_id@);
    if lex_order(a.pane_id@, b.pane_id@) < 0 && lex_order(b.pane_id@, c.pane_id@) < 0 {
        lemma_lex_transitive(a.pane_id@, b.pane_id@, c.pane_id@);
    }
    if let (Some(x), Some(y)) = (tag_of(a), tag_of(b)) {
        lemma_lex_antisymmetric(x, y);
        if let Some(z) = tag_of(c) {
            lemma_lex_antisymmetric(y, z);
            lemma_lex_antisymmetric(x, z);
            if lex_order(x, y) < 0 && lex_order(y, z) < 0 {
                lemma_lex_transitive(x, y, z);
            }
        }
    }
}

/// Compares alphabetically.
pub(crate) fn order_texts(a: &str, b: &str) -> (order: i8)
    ensures
        order == lex_order(a@, b@),
{
    let x = chars_of(a);
    let y = chars_of(b);
    let mut i: usize = 0;
    assert(x@.skip(0) =~= x@);
    assert(y@.skip(0) =~= y@);
    while i < x.len() && i < y.len() && x[i] == y[i]
        invariant
            i <= x@.len(),
            i <= y@.len(),
            lex_order(x@, y@) == lex_order(x@.skip(i as int), y@.skip(i as int)),
        decreases x.len() - i,
    {
        assert(x@.skip(i as int).skip(1) =~= x@.skip(i as int + 1));
        assert(y@.skip(i as int).skip(1) =~= y@.skip(i as int + 1));
        i = i + 1;
    }
    if i == x.len() && i == y.len() {
        0
    } else if i == x.len() {
        -1
    } else if i == y.len() {
        1
    } else if x[i] < y[i] {
        -1
    } else {
        1
    }
}

fn order_numbers(a: i128, b: i128) -> (order: i8)
    ensures
        order == int_order(a as int, b as int),
{
    if a < b {
        -1
    } else if a > b {
        1
    } else {
        0
    }
}

fn tag(m: &PaneMeta) -> (tag: Option<&String>)
    ensures
        match tag_of(*m) {
            Some(expected) => tag matches Some(t) && t@ == expected,
            None => tag is None,
        },
{
    match &m.session {
        Some(tag) => if tag.as_str().is_empty() {
            None
        } else {
            Some(tag)
        },
        None => None,
    }
}

fn order_panes(key: SortKey, a: &PaneMeta, b: &PaneMeta) -> (order: i8)
    ensures
        order == pane_order(key, *a, *b),
{
    let by_created: i8 = order_numbers(a.created_at as i128, b.created_at as i128);
    match key {
        SortKey::Created => by_created,
        SortKey::Id => order_texts(a.pane_id.as_str(), b.pane_id.as_str()),
        SortKey::Pid => if a.shell_pid != b.shell_pid {
            order_numbers(a.shell_pid as i128, b.shell_pid as i128)
        } else {
            by_created
        },
        SortKey::Session => match (tag(a), tag(b)) {
            (Some(x), Some(y)) => {
                let by_tag: i8 = order_texts(x.as_str(), y.as_str());
                if by_tag != 0 {
                    by_tag
                } else {
                    by_created
                }
            },
            (Some(_), None) => -1,
            (None, Some(_)) => 1,
            (None, None) => by_created,
        },
    }
}

/// The panes in the order of a listing, as indices.
pub fn listing_order(panes: &Vec<PaneMeta>, key: SortKey) -> (order: Vec<usize>)
    ensures
        is_listing_order(key, panes@, order@),
{
    let mut order: Vec<usize> = Vec::new();
    let mut n: usize = 0;
    while n < panes.len()
        invariant
            n <= panes@.len(),
            is_listing_order(key, panes@.take(n as int), order@),
        decreases panes.len() - n,
    {
        let ghost before = order@;
        let ghost old_panes = panes@.take(n as int);
        let ghost all = panes@.take(n as int + 1);
        let mut j: usize = order.len();
        while j > 0 && order_panes(key, &panes[n], &panes[order[j - 1]]) < 0
            invariant
                j <= order@.len(),
                n < panes@.len(),
                order@ == before,
                before.len() == n,
                forall|k: int| 0 <= k < before.len() ==> (#[trigger] before[k]) < n,
                forall|k: int|
                    j <= k < before.len() ==> listed_before(
                        key,
                        panes@,
                        n as int,
                        #[trigger] before[k] as int,
                    ),
            decreases j,
        {
            j = j - 1;
        }
        order.insert(j, n);
        proof {
            assert forall|k: int| 0 <= k < j implies listed_before(
                key,
                panes@,
                #[trigger] before[k] as int,
                n as int,
            ) by {
                let last = before[j - 1] as int;
                lemma_listed_total(key, panes@, last, n as int);
                assert(listed_before(key, panes@, last, n as int));
                if k < j - 1 {
                    assert(listed_before(key, old_panes, before[k] as int, last));
                    lemma_listed_transitive(key, panes@, before[k] as int, last, n as int);
                }
            }
            assert forall|k: int| 0 <= k < order@.len() implies (#[trigger] order@[k])
                < all.len() by {
                if k < j {
                    assert(order@[k] == before[k]);
                } else if k > j {
                    assert(order@[k] == before[k - 1]);
                }
            }
            assert forall|k: int, l: int| 0 <= k < l < order@.len() implies listed_before(
                key,
                all,
                #[trigger] order@[k] as int,
                #[trigger] order@[l] as int,
            ) by {
                let a = if k < j {
                    before[k]
                } else if k == j {
                    n
                } else {
                    before[k - 1]
                };
                let b = if l < j {
                    before[l]
                } else if l == j {
                    n
                } else {
                    before[l - 1]
                };
                assert(order@[k] == a);
                assert(order@[l] == b);
                if a != n && b != n {
                    let x = if k < j {
                        k
                    } else {
                        k - 1
                    };
                    let y = if l < j {
                        l
                    } else {
                        l - 1
                    };
                    assert(listed_before(key, old_panes, before[x] as int, before[y] as int));
                }
            }
        }
        n = n + 1;
    }
    assert(panes@.take(n as int) =~= panes@);
    order
}

/// The first `n` characters of a text.
fn cut(text: &str, n: usize) -> (out: String)
    ensures
        out@ == first_chars(text@, n as int),
{
    let chars = chars_of(text);
    let end: usize = if n < chars.len() {
        n
    } else {
        chars.len()
    };
    let out = text_between(&chars, 0, end);
    assert(out@ =~= first_chars(text@, n as int));
    out
}

fn collides(panes: &Vec<PaneMeta>) -> (found: bool)
    ensures
        found == short_ids_collide(panes@),
{
    let mut i: usize = 0;
    while i < panes.len()
        invariant
            i <= panes@.len(),
            forall|a: int, b: int|
                0 <= a < i && a < b < panes@.len() ==> first_chars(
                    (#[trigger] panes@[a]).pane_id@,
                    SHORT_PANE_ID_LEN as int,
                ) != first_chars((#[trigger] panes@[b]).pane_id@, SHORT_PANE_ID_LEN as int),
        decreases panes.len() - i,
    {
        let short = cut(panes[i].pane_id.as_str(), SHORT_PANE_ID_LEN);
        let mut j: usize = i + 1;
        while j < panes.len()
            invariant
                i < j <= panes@.len(),
                short@ == first_chars(panes@[i as int].pane_id@, SHORT_PANE_ID_LEN as int),
                forall|b: int|
                    i < b < j ==> short@ != first_chars(
                        (#[trigger] panes@[b]).pane_id@,
                        SHORT_PANE_ID_LEN as int,
                    ),
            decreases panes.len() - j,
        {
            let other = cut(panes[j].pane_id.as_str(), SHORT_PANE_ID_LEN);
            if same_text(short.as_str(), other.as_str()) {
                assert(panes@[i as int].pane_id@.len() >= 0 && panes@[j as int].pane_id@.len()
                    >= 0);
                return true;
            }
            j = j + 1;
        }
        i = i + 1;
    }
    false
}

fn state_of(m: &PaneMeta, f: &PaneFacts) -> (text: String)
    ensures
        text@ == state_text(*m, *f),
{
    match m.exited_status {
        Some(code) => {
            let mut text: String = "exited(".to_owned();
            text.append(signed_to_text(code).as_str());
            text.append(")");
            text
        },
        None => if f.alive {
            "running".to_owned()
        } else {
            "dead".to_owned()
        },
    }
}

/// The foreground program of a pane, where that can be told.
pub fn visible_foreground(m: &PaneMeta, f: &PaneFacts) -> (program: Option<String>)
    ensures
        opt_text(program) == shown_foreground(*m, *f),
{
    if m.exited_status.is_none() && f.alive {
        match &f.foreground {
            Some(program) => Some(program.clone()),
            None => None,
        }
    } else {
        None
    }
}

fn activity_of(m: &PaneMeta, f: &PaneFacts) -> (text: String)
    ensures
        text@ == activity_text(*m, *f),
{
    match visible_foreground(m, f) {
        Some(program) => sanitize(program.as_str()),
        None => match &m.cwd {
            Some(cwd) => sanitize(cwd.as_str()),
            None => "-".to_owned(),
        },
    }
}

/// One line of a listing.
pub fn render_row(m: &PaneMeta, f: &PaneFacts, id_width: usize) -> (line: String)
    ensures
        line@ == row_text(*m, *f, id_width as int),
{
    let mut session = String::new();
    session.push('[');
    match &m.session {
        Some(tag) => session.append(sanitize(tag.as_str()).as_str()),
        None => session.append(sanitize("-").as_str()),
    }
    session.push(']');
    assert(session@ =~= session_text(*m));
    let mut line = String::new();
    push_left_aligned(&mut line, cut(m.pane_id.as_str(), id_width).as_str(), id_width);
    assert(line@ =~= left_aligned(first_chars(m.pane_id@, id_width as int), id_width as int));
    line.append("  ");
    push_left_aligned(&mut line, state_of(m, f).as_str(), 12);
    line.append("  ");
    push_right_aligned(&mut line, signed_to_text(m.shell_pid).as_str(), 8);
    line.append("  ");
    push_left_aligned(&mut line, session.as_str(), 14);
    line.append("  ");
    push_left_aligned(&mut line, activity_of(m, f).as_str(), 40);
    line.append("  ");
    line.append(f.created.as_str());
    line
}

fn render_header(id_width: usize) -> (line: String)
    ensures
        line@ == header_text(id_width as int),
{
    let mut line = String::new();
    push_left_aligned(&mut line, "PANE ID", id_width);
    assert(line@ =~= left_aligned("PANE ID"@, id_width as int));
    line.append("  ");
    push_left_aligned(&mut line, "STATE", 12);
    line.append("  ");
    push_right_aligned(&mut line, "PID", 8);
    line.append("  ");
    push_left_aligned(&mut line, "SESSION", 14);
    line.append("  ");
    push_left_aligned(&mut line, "ACTIVITY", 40);
    line.append("  CREATED");
    line
}

/// The listing: a header, then one line for each pane in order; nothing where
/// there are no panes.
pub fn render_list(panes: &Vec<PaneMeta>, facts: &Vec<PaneFacts>, full: bool, key: SortKey) -> (out:
    Vec<String>)
    requires
        facts@.len() == panes@.len(),
    ensures
        panes@.len() == 0 ==> out@.len() == 0,
        panes@.len() > 0 ==> {
            &&& out@.len() == panes@.len() + 1
            &&& out@[0]@ == header_text(id_width_of(panes@, full))
            &&& exists|order: Seq<usize>|
                {
                    &&& #[trigger] is_listing_order(key, panes@, order)
                    &&& forall|k: int|
                        0 <= k < order.len() ==> (#[trigger] out@[k + 1])@ == row_text(
                            panes@[order[k] as int],
                            facts@[order[k] as int],
                            id_width_of(panes@, full),
                        )
                }
        },
{
    let mut out: Vec<String> = Vec::new();
    if panes.len() == 0 {
        return out;
    }
    let id_width: usize = if full || collides(panes) {
        32
    } else {
        8
    };
    out.push(render_header(id_width));
    let order = listing_order(panes, key);
    let mut k: usize = 0;
    while k < order.len()
        invariant
            k <= order@.len(),
            is_listing_order(key, panes@, order@),
            facts@.len() == panes@.len(),
            id_width == id_width_of(panes@, full),
            out@.len() == k + 1,
            out@[0]@ == header_text(id_width as int),
            forall|l: int|
                0 <= l < k ==> (#[trigger] out@[l + 1])@ == row_text(
                    panes@[order@[l] as int],
                    facts@[order@[l] as int],
                    id_width as int,
                ),
        decreases order.len() - k,
    {
        let i: usize = order[k];
        out.push(render_row(&panes[i], &facts[i], id_width));
        k = k + 1;
    }
    assert(is_listing_order(key, panes@, order@));
    out
}

/// Nothing that a listing shows of a program or a directory can steer the
/// terminal.
pub proof fn law_sanitized_is_harmless(text: Seq<char>, i: int)
    requires
        0 <= i < text.len(),
    ensures
        !is_control(sanitized(text)[i]),
        !is_control(text[i]) ==> sanitized(text)[i] == text[i],
{
}

} // verus!
