//! What a command line means, word by word.
use crate::cli::{
    after, command_of, equals_at, flag_count, list_command, no_spawn_options, ring_size_of,
    session_name, sort_key_of, spawn_options, with_variable, CommandView, SortKey,
};
use crate::launch::SpawnView;
use crate::text::starts_with;
use vstd::prelude::*;

verus! {

pub(crate) proof fn lemma_first_words()
    ensures
        "kill-session"@ != "spawn"@,
        "kill-session"@ != "attach"@,
        "kill-session"@ != "list"@,
        "kill-session"@ != "kill"@,
        "gc"@ != "spawn"@,
        "gc"@ != "attach"@,
        "gc"@ != "list"@,
        "gc"@ != "kill"@,
        "gc"@ != "kill-session"@,
        "kill"@ != "spawn"@,
        "kill"@ != "attach"@,
        "kill"@ != "list"@,
        "list"@ != "spawn"@,
        "list"@ != "attach"@,
        "attach"@ != "spawn"@,
{
    reveal_strlit("kill-session");
    reveal_strlit("spawn");
    reveal_strlit("attach");
    reveal_strlit("list");
    reveal_strlit("kill");
    reveal_strlit("gc");
    assert("kill-session"@.len() == 12);
    assert("spawn"@.len() == 5);
    assert("attach"@.len() == 6);
    assert("list"@.len() == 4);
    assert("kill"@.len() == 4);
    assert("gc"@.len() == 2);
    assert("kill"@[0] == 'k');
    assert("list"@[0] == 'l');
}

/// Whether a word stands among the arguments of a command.
pub open spec fn is_given(args: Seq<Seq<char>>, word: Seq<char>) -> bool {
    exists|i: int| 1 <= i < args.len() && #[trigger] args[i] == word
}

proof fn lemma_given(args: Seq<Seq<char>>, word: Seq<char>)
    requires
        args.len() > 0,
    ensures
        is_given(args, word) <==> args.skip(1).contains(word),
{
    let rest = args.skip(1);
    if is_given(args, word) {
        let i = choose|i: int| 1 <= i < args.len() && #[trigger] args[i] == word;
        assert(rest[i - 1] == word);
    }
    if rest.contains(word) {
        let i = choose|i: int| 0 <= i < rest.len() && rest[i] == word;
        assert(args[i + 1] == word);
    }
}

/// The name of a session that is ended is the last word that is no option.
proof fn lemma_session_name(args: Seq<Seq<char>>)
    ensures
        match session_name(args) {
            Some(name) => exists|i: int|
                0 <= i < args.len() && #[trigger] args[i] == name && name != "--dry-run"@ && name
                    != "--unnamed"@ && forall|j: int|
                    i < j < args.len() ==> #[trigger] args[j] == "--dry-run"@ || args[j]
                        == "--unnamed"@,
            None => forall|j: int|
                0 <= j < args.len() ==> #[trigger] args[j] == "--dry-run"@ || args[j]
                    == "--unnamed"@,
        },
    decreases args.len(),
{
    if args.len() > 0 {
        let last = args.len() - 1;
        if args.last() != "--dry-run"@ && args.last() != "--unnamed"@ {
            assert(args[last] == args.last());
        } else {
            let init = args.drop_last();
            lemma_session_name(init);
            match session_name(init) {
                Some(name) => {
                    let i = choose|i: int|
                        0 <= i < init.len() && #[trigger] init[i] == name && name != "--dry-run"@
                            && name != "--unnamed"@ && forall|j: int|
                            i < j < init.len() ==> #[trigger] init[j] == "--dry-run"@ || init[j]
                                == "--unnamed"@;
                    assert(args[i] == name);
                    assert forall|j: int| i < j < args.len() implies #[trigger] args[j]
                        == "--dry-run"@ || args[j] == "--unnamed"@ by {
                        if j < last {
                            assert(init[j] == args[j]);
                        }
                    }
                },
                None => {
                    assert forall|j: int| 0 <= j < args.len() implies #[trigger] args[j]
                        == "--dry-run"@ || args[j] == "--unnamed"@ by {
                        if j < last {
                            assert(init[j] == args[j]);
                        }
                    }
                },
            }
        }
    }
}

/// Ending a session is a dry run exactly where `--dry-run` is given, with a name
/// or without; it takes the last word that is no option for the name, and is
/// understood only with either a name or `--unnamed`.
pub proof fn law_a_dry_run_ends_nothing(args: Seq<Seq<char>>, shell: Option<Seq<char>>)
    requires
        args.len() > 0,
        args[0] == "kill-session"@,
    ensures
        match command_of(args, shell) {
            CommandView::KillSession { dry_run, name } => {
                &&& dry_run == is_given(args, "--dry-run"@)
                &&& name is None ==> is_given(args, "--unnamed"@)
                &&& name matches Some(n) ==> !is_given(args, "--unnamed"@) && exists|i: int|
                    1 <= i < args.len() && #[trigger] args[i] == n && n != "--dry-run"@ && n
                        != "--unnamed"@ && forall|j: int|
                        i < j < args.len() ==> #[trigger] args[j] == "--dry-run"@ || args[j]
                            == "--unnamed"@
            },
            CommandView::BadKillSession => is_given(args, "--unnamed"@) == exists|i: int|
                1 <= i < args.len() && #[trigger] args[i] != "--dry-run"@ && args[i]
                    != "--unnamed"@,
            _ => false,
        },
{
    lemma_first_words();
    lemma_given(args, "--dry-run"@);
    lemma_given(args, "--unnamed"@);
    let rest = args.skip(1);
    lemma_session_name(rest);
    match session_name(rest) {
        Some(name) => {
            let i = choose|i: int|
                0 <= i < rest.len() && #[trigger] rest[i] == name && name != "--dry-run"@ && name
                    != "--unnamed"@ && forall|j: int|
                    i < j < rest.len() ==> #[trigger] rest[j] == "--dry-run"@ || rest[j]
                        == "--unnamed"@;
            assert(args[i + 1] == name);
            assert forall|j: int| i + 1 < j < args.len() implies #[trigger] args[j]
                == "--dry-run"@ || args[j] == "--unnamed"@ by {
                assert(rest[j - 1] == args[j]);
            }
        },
        None => {
            assert forall|j: int| 1 <= j < args.len() implies #[trigger] args[j] == "--dry-run"@
                || args[j] == "--unnamed"@ by {
                assert(rest[j - 1] == args[j]);
            }
        },
    }
}

/// Cleaning up is a dry run exactly where `--dry-run` follows, and ending a pane
/// ends the one that is named.
pub proof fn law_gc_and_kill_do_what_they_say(args: Seq<Seq<char>>, shell: Option<Seq<char>>)
    requires
        args.len() > 0,
    ensures
        args[0] == "gc"@ ==> (command_of(args, shell) matches CommandView::Gc { dry_run } && (
        dry_run <==> args.len() > 1 && args[1] == "--dry-run"@)),
        args[0] == "kill"@ && args.len() > 1 ==> (command_of(
            args,
            shell,
        ) matches CommandView::Kill { id } && id == args[1]),
        args[0] == "kill"@ && args.len() == 1 ==> command_of(args, shell) is Usage,
{
    lemma_first_words();
}

proof fn lemma_flags(args: Seq<Seq<char>>)
    ensures
        flag_count(args) <= args.len(),
        forall|j: int| 0 <= j < flag_count(args) ==> starts_with(#[trigger] args[j], "--"@),
        flag_count(args) < args.len() ==> !starts_with(args[flag_count(args) as int], "--"@),
    decreases args.len(),
{
    if args.len() > 0 && starts_with(args[0], "--"@) {
        let rest = args.skip(1);
        lemma_flags(rest);
        assert forall|j: int| 0 <= j < flag_count(args) implies starts_with(
            #[trigger] args[j],
            "--"@,
        ) by {
            if j > 0 {
                assert(rest[j - 1] == args[j]);
            }
        }
    }
}

/// Attaching goes to the first word that is no option; of the options before it
/// `--stdio` asks for a relay and `--no-replay` leaves the replay out.
pub proof fn law_attach_goes_to_the_first_plain_word(
    args: Seq<Seq<char>>,
    shell: Option<Seq<char>>,
)
    requires
        args.len() > 0,
        args[0] == "attach"@,
    ensures
        match command_of(args, shell) {
            CommandView::Attach { stdio, no_replay, target } => exists|n: int|
                1 <= n < args.len() && #[trigger] args[n] == target && !starts_with(target, "--"@)
                    && (forall|j: int| 1 <= j < n ==> starts_with(#[trigger] args[j], "--"@)) && (
                stdio <==> exists|j: int| 1 <= j < n && #[trigger] args[j] == "--stdio"@) && (
                no_replay <==> exists|j: int| 1 <= j < n && #[trigger] args[j] == "--no-replay"@),
            CommandView::Usage => forall|j: int|
                1 <= j < args.len() ==> starts_with(#[trigger] args[j], "--"@),
            _ => false,
        },
{
    lemma_first_words();
    let rest = args.skip(1);
    lemma_flags(rest);
    let n = flag_count(rest) as int;
    assert forall|j: int| 1 <= j < n + 1 implies starts_with(#[trigger] args[j], "--"@) by {
        assert(rest[j - 1] == args[j]);
    }
    if n < rest.len() {
        let front = rest.take(n);
        assert(args[n + 1] == rest[n]);
        assert(front.contains("--stdio"@) <==> exists|j: int|
            1 <= j < n + 1 && #[trigger] args[j] == "--stdio"@) by {
            if front.contains("--stdio"@) {
                let k = choose|k: int| 0 <= k < front.len() && front[k] == "--stdio"@;
                assert(args[k + 1] == "--stdio"@);
            }
            if exists|j: int| 1 <= j < n + 1 && #[trigger] args[j] == "--stdio"@ {
                let j = choose|j: int| 1 <= j < n + 1 && #[trigger] args[j] == "--stdio"@;
                assert(front[j - 1] == "--stdio"@);
            }
        }
        assert(front.contains("--no-replay"@) <==> exists|j: int|
            1 <= j < n + 1 && #[trigger] args[j] == "--no-replay"@) by {
            if front.contains("--no-replay"@) {
                let k = choose|k: int| 0 <= k < front.len() && front[k] == "--no-replay"@;
                assert(args[k + 1] == "--no-replay"@);
            }
            if exists|j: int| 1 <= j < n + 1 && #[trigger] args[j] == "--no-replay"@ {
                let j = choose|j: int| 1 <= j < n + 1 && #[trigger] args[j] == "--no-replay"@;
                assert(front[j - 1] == "--no-replay"@);
            }
        }
    }
}

pub(crate) proof fn lemma_list_words()
    ensures
        "--json"@ != "--full"@,
        "--json"@ != "--sort"@,
        "--full"@ != "--sort"@,
        sort_key_of("--json"@) is None,
        sort_key_of("--full"@) is None,
        sort_key_of("--sort"@) is None,
{
    reveal_strlit("--json");
    reveal_strlit("--full");
    reveal_strlit("--sort");
    reveal_strlit("session");
    reveal_strlit("created");
    reveal_strlit("id");
    reveal_strlit("pid");
    assert("--json"@[2] == 'j');
    assert("--full"@[2] == 'f');
    assert("--sort"@[2] == 's');
    assert("--json"@.len() == 6);
    assert("--full"@.len() == 6);
    assert("--sort"@.len() == 6);
    assert("session"@.len() == 7);
    assert("created"@.len() == 7);
    assert("id"@.len() == 2);
    assert("pid"@.len() == 3);
}

proof fn lemma_contains_first(args: Seq<Seq<char>>, word: Seq<char>)
    requires
        args.len() > 0,
    ensures
        args.contains(word) <==> args[0] == word || args.skip(1).contains(word),
{
    let rest = args.skip(1);
    if args.contains(word) {
        let i = choose|i: int| 0 <= i < args.len() && args[i] == word;
        if i > 0 {
            assert(rest[i - 1] == word);
        }
    }
    if rest.contains(word) {
        let i = choose|i: int| 0 <= i < rest.len() && rest[i] == word;
        assert(args[i + 1] == word);
    }
}

proof fn lemma_list(json: bool, full: bool, sort: SortKey, args: Seq<Seq<char>>)
    ensures
        list_command(json, full, sort, args) matches CommandView::List { json: j, full: f, sort: s }
            ==> {
            &&& j == (json || args.contains("--json"@))
            &&& f == (full || args.contains("--full"@))
            &&& !args.contains("--sort"@) ==> s == sort
        },
    decreases args.len(),
{
    lemma_list_words();
    if args.len() > 0 {
        let rest = args.skip(1);
        lemma_contains_first(args, "--json"@);
        lemma_contains_first(args, "--full"@);
        lemma_contains_first(args, "--sort"@);
        if args[0] == "--json"@ {
            lemma_list(true, full, sort, rest);
        } else if args[0] == "--full"@ {
            lemma_list(json, true, sort, rest);
        } else if args[0] == "--sort"@ {
            if args.len() > 1 {
                if let Some(key) = sort_key_of(args[1]) {
                    assert(rest[0] == args[1]);
                    assert(rest.skip(1) =~= after(args, 2));
                    lemma_contains_first(rest, "--json"@);
                    lemma_contains_first(rest, "--full"@);
                    lemma_list(json, full, key, after(args, 2));
                }
            }
        }
    }
}

proof fn lemma_list_sorted(
    json: bool,
    full: bool,
    sort: SortKey,
    args: Seq<Seq<char>>,
    i: int,
)
    requires
        0 <= i < args.len(),
        args[i] == "--sort"@,
        forall|j: int| i < j < args.len() ==> #[trigger] args[j] != "--sort"@,
    ensures
        list_command(json, full, sort, args) matches CommandView::List { sort: s, .. } ==> i + 1
            < args.len() && sort_key_of(args[i + 1]) == Some(s),
    decreases args.len(),
{
    lemma_list_words();
    let rest = args.skip(1);
    if i > 0 {
        assert(rest[i - 1] == args[i]);
        assert forall|j: int| i - 1 < j < rest.len() implies #[trigger] rest[j] != "--sort"@ by {
            assert(rest[j] == args[j + 1]);
        }
    }
    if args[0] == "--json"@ {
        lemma_list_sorted(true, full, sort, rest, i - 1);
    } else if args[0] == "--full"@ {
        lemma_list_sorted(json, true, sort, rest, i - 1);
    } else if args[0] == "--sort"@ {
        if args.len() > 1 {
            if let Some(key) = sort_key_of(args[1]) {
                let tail = after(args, 2);
                if i == 0 {
                    assert(!tail.contains("--sort"@)) by {
                        if tail.contains("--sort"@) {
                            let k = choose|k: int| 0 <= k < tail.len() && tail[k] == "--sort"@;
                            assert(args[k + 2] == tail[k]);
                        }
                    }
                    lemma_list(json, full, key, tail);
                } else {
                    assert(i != 1);
                    assert(tail[i - 2] == args[i]);
                    assert forall|j: int| i - 2 < j < tail.len() implies #[trigger] tail[j]
                        != "--sort"@ by {
                        assert(tail[j] == args[j + 2]);
                    }
                    lemma_list_sorted(json, full, key, tail, i - 2);
                }
            }
        }
    }
}

/// The word that a listing is ordered by.
pub open spec fn names_order(word: Seq<char>, key: SortKey) -> bool {
    match key {
        SortKey::Session => word == "session"@,
        SortKey::Created => word == "created"@,
        SortKey::Id => word == "id"@,
        SortKey::Pid => word == "pid"@,
    }
}

/// A listing is JSON or in full exactly where that is asked for, wherever among
/// the options it stands, and ordered by the word behind the last `--sort`, else
/// by session.
pub proof fn law_a_listing_is_as_asked_for(args: Seq<Seq<char>>, shell: Option<Seq<char>>, i: int)
    requires
        args.len() > 0,
        args[0] == "list"@,
    ensures
        command_of(args, shell) matches CommandView::List { json, full, sort } ==> {
            &&& json == is_given(args, "--json"@)
            &&& full == is_given(args, "--full"@)
            &&& !is_given(args, "--sort"@) ==> sort is Session
            &&& 1 <= i < args.len() && args[i] == "--sort"@ && (forall|j: int|
                i < j < args.len() ==> #[trigger] args[j] != "--sort"@) ==> i + 1 < args.len()
                && names_order(args[i + 1], sort)
        },
{
    lemma_first_words();
    lemma_given(args, "--json"@);
    lemma_given(args, "--full"@);
    lemma_given(args, "--sort"@);
    let rest = args.skip(1);
    lemma_list(false, false, SortKey::Session, rest);
    if 1 <= i < args.len() && args[i] == "--sort"@ && (forall|j: int|
        i < j < args.len() ==> #[trigger] args[j] != "--sort"@) {
        assert(rest[i - 1] == args[i]);
        assert forall|j: int| i - 1 < j < rest.len() implies #[trigger] rest[j] != "--sort"@ by {
            assert(rest[j] == args[j + 1]);
        }
        lemma_list_sorted(false, false, SortKey::Session, rest, i - 1);
        if i < rest.len() {
            assert(rest[i] == args[i + 1]);
        }
    }
}

proof fn lemma_spawn_words()
    ensures
        "--cwd"@ != "--pane-id"@,
        "--session"@ != "--pane-id"@,
        "--session"@ != "--cwd"@,
        "--ring-size"@ != "--pane-id"@,
        "--ring-size"@ != "--cwd"@,
        "--ring-size"@ != "--session"@,
        "--env"@ != "--pane-id"@,
        "--env"@ != "--cwd"@,
        "--env"@ != "--session"@,
        "--env"@ != "--ring-size"@,
        "--"@ != "--pane-id"@,
        "--"@ != "--cwd"@,
        "--"@ != "--session"@,
        "--"@ != "--ring-size"@,
        "--"@ != "--env"@,
{
    reveal_strlit("--pane-id");
    reveal_strlit("--cwd");
    reveal_strlit("--session");
    reveal_strlit("--ring-size");
    reveal_strlit("--env");
    reveal_strlit("--");
    assert("--pane-id"@.len() == 9);
    assert("--cwd"@.len() == 5);
    assert("--session"@.len() == 9);
    assert("--ring-size"@.len() == 11);
    assert("--env"@.len() == 5);
    assert("--"@.len() == 2);
    assert("--pane-id"@[2] == 'p');
    assert("--session"@[2] == 's');
    assert("--cwd"@[2] == 'c');
    assert("--env"@[2] == 'e');
}

/// The program behind `--` is run with what follows it, whatever that looks like;
/// without one the login shell is, and `/bin/sh` where there is none.
pub proof fn law_a_spawn_runs_its_program(
    program: Seq<char>,
    rest: Seq<Seq<char>>,
    shell: Option<Seq<char>>,
)
    ensures
        command_of(seq!["spawn"@, "--"@, program] + rest, shell) matches CommandView::Spawn(v) && {
            &&& program.len() > 0 ==> v.program == program
            &&& program.len() == 0 ==> v.program == match shell {
                Some(s) => s,
                None => "/bin/sh"@,
            }
            &&& v.args == rest
            &&& v.pane_id is None && v.cwd is None && v.session is None && v.env.len() == 0
        },
        command_of(seq!["spawn"@], shell) matches CommandView::Spawn(v) && {
            &&& v.program == match shell {
                Some(s) => s,
                None => "/bin/sh"@,
            }
            &&& v.args.len() == 0
        },
{
    lemma_spawn_words();
    let words = seq!["spawn"@, "--"@, program] + rest;
    let tail = words.skip(1);
    assert(tail[0] == "--"@);
    assert(tail[1] == program);
    assert(after(tail, 2) =~= rest);
    assert(seq!["spawn"@].skip(1) =~= Seq::<Seq<char>>::empty());
}

pub(crate) proof fn lemma_option(v: SpawnView, value: Seq<char>, tail: Seq<Seq<char>>)
    ensures
        spawn_options(v, seq!["--pane-id"@, value] + tail) == spawn_options(
            SpawnView { pane_id: Some(value), ..v },
            tail,
        ),
        spawn_options(v, seq!["--cwd"@, value] + tail) == spawn_options(
            SpawnView { cwd: Some(value), ..v },
            tail,
        ),
        spawn_options(v, seq!["--session"@, value] + tail) == spawn_options(
            SpawnView { session: Some(value), ..v },
            tail,
        ),
        spawn_options(v, seq!["--ring-size"@, value] + tail) == spawn_options(
            SpawnView { ring_size: ring_size_of(Some(value)), ..v },
            tail,
        ),
        spawn_options(v, seq!["--env"@, value] + tail) == spawn_options(
            SpawnView { env: with_variable(v.env, Some(value)), ..v },
            tail,
        ),
{
    lemma_spawn_words();
    assert(after(seq!["--pane-id"@, value] + tail, 2) =~= tail);
    assert(after(seq!["--cwd"@, value] + tail, 2) =~= tail);
    assert(after(seq!["--session"@, value] + tail, 2) =~= tail);
    assert(after(seq!["--ring-size"@, value] + tail, 2) =~= tail);
    assert(after(seq!["--env"@, value] + tail, 2) =~= tail);
}

pub(crate) proof fn lemma_program(v: SpawnView, program: Seq<char>, rest: Seq<Seq<char>>)
    ensures
        spawn_options(v, seq!["--"@, program] + rest) == Some(
            SpawnView { program, args: rest, ..v },
        ),
{
    lemma_spawn_words();
    assert(after(seq!["--"@, program] + rest, 2) =~= rest);
}

/// Each option of a spawn sets what it names and nothing else.
pub proof fn law_each_spawn_option_sets_its_own(
    value: Seq<char>,
    program: Seq<char>,
    rest: Seq<Seq<char>>,
    shell: Option<Seq<char>>,
)
    requires
        program.len() > 0,
    ensures
        command_of(seq!["spawn"@, "--pane-id"@, value, "--"@, program] + rest, shell)
            matches CommandView::Spawn(v) && v.pane_id == Some(value) && v.cwd is None
            && v.session is None && v.env.len() == 0 && v.program == program && v.args == rest,
        command_of(seq!["spawn"@, "--cwd"@, value, "--"@, program] + rest, shell)
            matches CommandView::Spawn(v) && v.cwd == Some(value) && v.pane_id is None
            && v.session is None && v.env.len() == 0 && v.program == program && v.args == rest,
        command_of(seq!["spawn"@, "--session"@, value, "--"@, program] + rest, shell)
            matches CommandView::Spawn(v) && v.session == Some(value) && v.pane_id is None
            && v.cwd is None && v.env.len() == 0 && v.program == program && v.args == rest,
{
    let none = no_spawn_options();
    let end = seq!["--"@, program] + rest;
    lemma_option(none, value, end);
    lemma_program(SpawnView { pane_id: Some(value), ..none }, program, rest);
    lemma_program(SpawnView { cwd: Some(value), ..none }, program, rest);
    lemma_program(SpawnView { session: Some(value), ..none }, program, rest);
    assert((seq!["spawn"@, "--pane-id"@, value, "--"@, program] + rest).skip(1)
        =~= seq!["--pane-id"@, value] + end);
    assert((seq!["spawn"@, "--cwd"@, value, "--"@, program] + rest).skip(1)
        =~= seq!["--cwd"@, value] + end);
    assert((seq!["spawn"@, "--session"@, value, "--"@, program] + rest).skip(1)
        =~= seq!["--session"@, value] + end);
}

/// Of an option that is given twice the later one counts, and the others keep
/// theirs.
pub proof fn law_the_later_spawn_option_counts(
    first: Seq<char>,
    second: Seq<char>,
    program: Seq<char>,
    shell: Option<Seq<char>>,
)
    requires
        program.len() > 0,
    ensures
        command_of(seq!["spawn"@, "--cwd"@, first, "--cwd"@, second, "--"@, program], shell)
            matches CommandView::Spawn(v) && v.cwd == Some(second),
        command_of(seq!["spawn"@, "--session"@, first, "--cwd"@, second, "--"@, program], shell)
            matches CommandView::Spawn(v) && v.cwd == Some(second) && v.session == Some(first),
        command_of(seq!["spawn"@, "--pane-id"@, first, "--session"@, second, "--"@, program], shell)
            matches CommandView::Spawn(v) && v.session == Some(second) && v.pane_id == Some(first),
{
    let none = no_spawn_options();
    let nothing = Seq::<Seq<char>>::empty();
    let end = seq!["--"@, program];
    assert(end + nothing =~= end);
    let by_cwd = seq!["--cwd"@, second] + end;
    let by_session = seq!["--session"@, second] + end;
    let one = SpawnView { cwd: Some(first), ..none };
    let two = SpawnView { session: Some(first), ..none };
    let three = SpawnView { pane_id: Some(first), ..none };
    lemma_option(none, first, by_cwd);
    lemma_option(none, first, by_session);
    lemma_option(one, second, end);
    lemma_option(two, second, end);
    lemma_option(three, second, end);
    lemma_program(SpawnView { cwd: Some(second), ..one }, program, nothing);
    lemma_program(SpawnView { cwd: Some(second), ..two }, program, nothing);
    lemma_program(SpawnView { session: Some(second), ..three }, program, nothing);
    assert(seq!["spawn"@, "--cwd"@, first, "--cwd"@, second, "--"@, program].skip(1)
        =~= seq!["--cwd"@, first] + by_cwd);
    assert(seq!["spawn"@, "--session"@, first, "--cwd"@, second, "--"@, program].skip(1)
        =~= seq!["--session"@, first] + by_cwd);
    assert(seq!["spawn"@, "--pane-id"@, first, "--session"@, second, "--"@, program].skip(1)
        =~= seq!["--pane-id"@, first] + by_session);
}

proof fn lemma_equals_at(name: Seq<char>, value: Seq<char>)
    requires
        forall|i: int| 0 <= i < name.len() ==> #[trigger] name[i] != '=',
    ensures
        equals_at(name.push('=') + value) == Some(name.len() as int),
    decreases name.len(),
{
    let whole = name.push('=') + value;
    if name.len() > 0 {
        let rest = name.skip(1);
        assert forall|i: int| 0 <= i < rest.len() implies #[trigger] rest[i] != '=' by {
            assert(rest[i] == name[i + 1]);
        }
        lemma_equals_at(rest, value);
        assert(whole[0] == name[0]);
        assert(whole.skip(1) =~= rest.push('=') + value);
    } else {
        assert(whole[0] == '=');
    }
}

/// A variable is what stands before the first equals sign, its value all that
/// stands behind it; several are kept in their order.
pub proof fn law_variables_are_split_at_the_first_sign(
    name: Seq<char>,
    value: Seq<char>,
    name2: Seq<char>,
    value2: Seq<char>,
    program: Seq<char>,
    shell: Option<Seq<char>>,
)
    requires
        program.len() > 0,
        forall|i: int| 0 <= i < name.len() ==> #[trigger] name[i] != '=',
        forall|i: int| 0 <= i < name2.len() ==> #[trigger] name2[i] != '=',
    ensures
        command_of(
            seq![
                "spawn"@,
                "--env"@,
                name.push('=') + value,
                "--env"@,
                name2.push('=') + value2,
                "--"@,
                program,
            ],
            shell,
        ) matches CommandView::Spawn(v) && v.env == seq![(name, value), (name2, value2)]
            && v.program == program && v.cwd is None && v.session is None && v.pane_id is None,
{
    let none = no_spawn_options();
    let nothing = Seq::<Seq<char>>::empty();
    let end = seq!["--"@, program];
    assert(end + nothing =~= end);
    let a = name.push('=') + value;
    let b = name2.push('=') + value2;
    lemma_equals_at(name, value);
    lemma_equals_at(name2, value2);
    assert(a.take(name.len() as int) =~= name);
    assert(a.skip(name.len() as int + 1) =~= value);
    assert(b.take(name2.len() as int) =~= name2);
    assert(b.skip(name2.len() as int + 1) =~= value2);
    let rest = seq!["--env"@, b] + end;
    lemma_option(none, a, rest);
    let one = SpawnView { env: with_variable(none.env, Some(a)), ..none };
    lemma_option(one, b, end);
    let two = SpawnView { env: with_variable(one.env, Some(b)), ..one };
    lemma_program(two, program, nothing);
    assert(two.env =~= seq![(name, value), (name2, value2)]);
    assert(seq!["spawn"@, "--env"@, a, "--env"@, b, "--"@, program].skip(1) =~= seq!["--env"@, a]
        + rest);
}

} // verus!
