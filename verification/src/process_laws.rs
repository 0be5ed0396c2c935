//! What holds of starting a shell and of what the kernel tells of processes.
use crate::launch::{
    choose_id, first_nul, first_nul_of_env, has_variable, nul_of, nul_position, pairs, pane_env,
    spawn_spec, IdChoice, SpawnArgs, SpawnSpec, SpawnView,
};
use crate::pane::{opt_text, texts};
use crate::procfs::{
    boot_time_of, foreground, foreground_group_of, last_paren, start_epoch_of, stat_field, ticks_of,
};
use crate::text::{parsed_number, starts_with};
use crate::words::{is_white_space, lines, trim_front, trimmed_text, word_len, words};
use vstd::prelude::*;
use vstd::utf8::encode_utf8;

verus! {

// ---------------------------------------------------------------------------
// Words.

/// Whether a text is one word: it is not empty and holds no white space.
pub open spec fn is_word(text: Seq<char>) -> bool {
    text.len() > 0 && forall|i: int| 0 <= i < text.len() ==> !is_white_space(#[trigger] text[i])
}

/// Words with a blank before each.
pub open spec fn spaced(all: Seq<Seq<char>>) -> Seq<char>
    decreases all.len(),
{
    if all.len() == 0 {
        Seq::empty()
    } else {
        seq![' '] + all[0] + spaced(all.skip(1))
    }
}

proof fn lemma_word_len_of(word: Seq<char>, rest: Seq<char>)
    requires
        forall|i: int| 0 <= i < word.len() ==> !is_white_space(#[trigger] word[i]),
        rest.len() > 0 ==> is_white_space(rest[0]),
    ensures
        word_len(word + rest) == word.len(),
    decreases word.len(),
{
    if word.len() == 0 {
        assert(word + rest =~= rest);
    } else {
        let next = word.skip(1);
        assert forall|i: int| 0 <= i < next.len() implies !is_white_space(#[trigger] next[i]) by {
            assert(next[i] == word[i + 1]);
        }
        lemma_word_len_of(next, rest);
        assert((word + rest).skip(1) =~= next + rest);
        assert((word + rest)[0] == word[0]);
    }
}

/// Words that blanks separate are found again, each as it was and in their order.
pub proof fn law_words_are_found_again(all: Seq<Seq<char>>)
    requires
        forall|i: int| 0 <= i < all.len() ==> is_word(#[trigger] all[i]),
    ensures
        words(spaced(all)) == all,
    decreases all.len(),
{
    if all.len() == 0 {
        assert(trim_front(spaced(all)).len() == 0);
        assert(words(spaced(all)) =~= all);
    } else {
        let rest = all.skip(1);
        assert forall|i: int| 0 <= i < rest.len() implies is_word(#[trigger] rest[i]) by {
            assert(rest[i] == all[i + 1]);
        }
        law_words_are_found_again(rest);
        let s = spaced(all);
        let t = all[0] + spaced(rest);
        assert(is_word(all[0]));
        assert(s.skip(1) =~= t);
        assert(is_white_space(s[0]));
        assert(t[0] == all[0][0]);
        assert(trim_front(t) == t);
        assert(trim_front(s) == t);
        lemma_word_len_of(all[0], spaced(rest));
        assert(t.take(all[0].len() as int) =~= all[0]);
        assert(t.skip(all[0].len() as int) =~= spaced(rest));
        assert(seq![all[0]] + rest =~= all);
    }
}

// ---------------------------------------------------------------------------
// What the kernel tells.

proof fn lemma_last_paren(head: Seq<char>, tail: Seq<char>)
    requires
        !tail.contains(')'),
    ensures
        last_paren(head.push(')') + tail) == Some(head.len() as int),
    decreases tail.len(),
{
    let all = head.push(')') + tail;
    if tail.len() == 0 {
        assert(all.last() == ')');
    } else {
        let init = tail.drop_last();
        assert(all.last() == tail[tail.len() - 1]);
        if init.contains(')') {
            let k = init.index_of(')');
            assert(tail[k] == ')');
        }
        lemma_last_paren(head, init);
        assert(all.drop_last() =~= head.push(')') + init);
    }
}

proof fn lemma_spaced_plain(all: Seq<Seq<char>>)
    requires
        forall|i: int| 0 <= i < all.len() ==> !(#[trigger] all[i]).contains(')'),
    ensures
        !spaced(all).contains(')'),
    decreases all.len(),
{
    if all.len() > 0 {
        let rest = all.skip(1);
        assert forall|i: int| 0 <= i < rest.len() implies !(#[trigger] rest[i]).contains(')') by {
            assert(rest[i] == all[i + 1]);
        }
        lemma_spaced_plain(rest);
        let s = spaced(all);
        if s.contains(')') {
            let k = s.index_of(')');
            if k == 0 {
                assert(s[0] == ' ');
            } else if k <= all[0].len() {
                assert(all[0][k - 1] == ')');
            } else {
                assert(spaced(rest)[k - 1 - all[0].len()] == ')');
            }
        }
    }
}

/// The fields of a process are counted behind its name, which may hold blanks and
/// parentheses of its own.
pub proof fn law_fields_are_counted_behind_the_name(
    name: Seq<char>,
    fields: Seq<Seq<char>>,
    n: int,
)
    requires
        forall|i: int|
            0 <= i < fields.len() ==> is_word(#[trigger] fields[i]) && !fields[i].contains(')'),
        0 <= n,
    ensures
        ({
            let stat = name.push(')') + spaced(fields);
            &&& n < fields.len() ==> stat_field(stat, n) == Some(fields[n])
            &&& n >= fields.len() ==> stat_field(stat, n) is None
        }),
{
    let stat = name.push(')') + spaced(fields);
    assert forall|i: int| 0 <= i < fields.len() implies !(#[trigger] fields[i]).contains(')') by {
        assert(is_word(fields[i]));
    }
    lemma_spaced_plain(fields);
    lemma_last_paren(name, spaced(fields));
    assert(stat.skip(name.len() as int + 1) =~= spaced(fields));
    law_words_are_found_again(fields);
}

/// A process started at the twentieth number behind its name, in ticks, and the
/// sixth is the group in the foreground of its terminal: one that is the shell's own
/// group, or none, is no program.
pub proof fn law_a_process_is_read_from_its_fields(
    name: Seq<char>,
    fields: Seq<Seq<char>>,
    shell_pid: int,
)
    requires
        fields.len() >= 20,
        forall|i: int|
            0 <= i < fields.len() ==> is_word(#[trigger] fields[i]) && !fields[i].contains(')'),
    ensures
        ({
            let stat = name.push(')') + spaced(fields);
            let group = parsed_number(fields[5], 0x7FFF_FFFF);
            &&& ticks_of(stat) == parsed_number(fields[19], 0xFFFF_FFFF_FFFF_FFFF)
            &&& group is Some && group->0 > 0 && group->0 != shell_pid ==> foreground_group_of(
                stat,
                shell_pid,
            ) == Some(group->0 as int)
            &&& group is None || group->0 == 0 || group->0 == shell_pid ==> foreground_group_of(
                stat,
                shell_pid,
            ) is None
        }),
{
    law_fields_are_counted_behind_the_name(name, fields, 5);
    law_fields_are_counted_behind_the_name(name, fields, 19);
}

/// The machine started at the number of the first line that tells it.
pub proof fn law_the_first_boot_line_counts(
    before: Seq<Seq<char>>,
    told: Seq<char>,
    after: Seq<Seq<char>>,
)
    requires
        forall|i: int| 0 <= i < before.len() ==> !starts_with(#[trigger] before[i], "btime "@),
    ensures
        boot_time_of(before + seq!["btime "@ + told] + after) == parsed_number(
            trimmed_text(told),
            0xFFFF_FFFF_FFFF_FFFF,
        ),
        boot_time_of(before) is None,
    decreases before.len(),
{
    reveal_strlit("btime ");
    let line = "btime "@ + told;
    let all = before + seq![line] + after;
    if before.len() == 0 {
        assert(all[0] == line);
        assert(line.take(6) =~= "btime "@);
        assert(line.skip(6) =~= told);
    } else {
        let rest = before.skip(1);
        assert forall|i: int| 0 <= i < rest.len() implies !starts_with(
            #[trigger] rest[i],
            "btime "@,
        ) by {
            assert(rest[i] == before[i + 1]);
        }
        law_the_first_boot_line_counts(rest, told, after);
        assert(all[0] == before[0]);
        assert(all.skip(1) =~= rest + seq![line] + after);
    }
}

/// A process started so many whole seconds after the machine did as its ticks make.
pub proof fn law_ticks_are_counted_from_the_boot(
    stat: Seq<char>,
    kernel: Seq<char>,
    hz: int,
)
    ensures
        hz <= 0 ==> start_epoch_of(stat, kernel, hz) is None,
        ticks_of(stat) is None || boot_time_of(lines(kernel)) is None ==> start_epoch_of(
            stat,
            kernel,
            hz,
        ) is None,
        hz > 0 && ticks_of(stat) is Some && boot_time_of(lines(kernel)) is Some ==> {
            let start = start_epoch_of(stat, kernel, hz);
            let ran = start->0 - boot_time_of(lines(kernel))->0;
            &&& start is Some
            &&& ran * hz <= ticks_of(stat)->0 < (ran + 1) * hz
        },
{
    if hz > 0 && ticks_of(stat) is Some && boot_time_of(lines(kernel)) is Some {
        let t = ticks_of(stat)->0 as int;
        let q = t / hz;
        assert(q * hz <= t < (q + 1) * hz) by (nonlinear_arith)
            requires
                hz > 0,
                q == t / hz,
        ;
    }
}

/// The program in the foreground goes by its name without the blanks around it; no
/// name is none.
pub proof fn law_a_program_goes_by_its_name(comm: &str, program: Option<String>)
    requires
        call_ensures(foreground, (comm,), program),
        comm@.len() > 0 ==> !is_white_space(comm@[0]) && !is_white_space(comm@.last()),
    ensures
        comm@.len() == 0 <==> program is None,
        program is Some ==> program->0@ == comm@,
{
}

// ---------------------------------------------------------------------------
// Starting a shell.

/// A shell keeps every variable that it was given, as it was given. Only where they
/// are missing, the kind of terminal and of its colors are added behind.
pub proof fn law_a_shell_keeps_its_variables(env: Seq<(Seq<char>, Seq<char>)>, i: int)
    ensures
        ({
            let out = pane_env(env);
            &&& 0 <= i < env.len() ==> out[i] == env[i]
            &&& has_variable(out, "TERM"@)
            &&& has_variable(out, "COLORTERM"@)
            &&& env.len() <= i < out.len() ==> {
                ||| out[i] == ("TERM"@, "xterm-256color"@) && !has_variable(env, "TERM"@)
                ||| out[i] == ("COLORTERM"@, "truecolor"@) && !has_variable(env, "COLORTERM"@)
            }
            &&& has_variable(env, "TERM"@) && has_variable(env, "COLORTERM"@) ==> out == env
        }),
{
    reveal_strlit("TERM");
    reveal_strlit("COLORTERM");
    assert("TERM"@.len() == 4);
    assert("COLORTERM"@.len() == 9);
    let first = crate::launch::with_default(env, "TERM"@, "xterm-256color"@);
    let out = pane_env(env);
    assert(has_variable(first, "TERM"@)) by {
        if has_variable(env, "TERM"@) {
            assert(first == env);
        } else {
            assert(first[env.len() as int].0 == "TERM"@);
        }
    }
    let k = choose|k: int| 0 <= k < first.len() && (#[trigger] first[k]).0 == "TERM"@;
    assert(out[k] == first[k]);
    assert(has_variable(out, "COLORTERM"@)) by {
        if has_variable(first, "COLORTERM"@) {
            assert(out == first);
        } else {
            assert(out[first.len() as int].0 == "COLORTERM"@);
        }
    }
    assert(has_variable(env, "COLORTERM"@) ==> has_variable(first, "COLORTERM"@)) by {
        if has_variable(env, "COLORTERM"@) {
            let j = choose|j: int| 0 <= j < env.len() && (#[trigger] env[j]).0 == "COLORTERM"@;
            assert(first[j] == env[j]);
        }
    }
    if has_variable(first, "COLORTERM"@) {
        let j = choose|j: int| 0 <= j < first.len() && (#[trigger] first[j]).0 == "COLORTERM"@;
        assert(j < env.len());
        assert(env[j].0 == "COLORTERM"@);
    }
}

/// Whether a text has a zero byte in it, which would end it.
pub open spec fn has_zero(text: Seq<char>) -> bool {
    encode_utf8(text).contains(0u8)
}

proof fn lemma_zero(text: Seq<char>)
    ensures
        nul_position(text) is Some <==> has_zero(text),
        nul_position(text) is Some ==> encode_utf8(text)[nul_position(text)->0] == 0,
{
    encode_utf8(text).index_of_first_ensures(0u8);
}

proof fn lemma_zero_in(all: Seq<Seq<char>>)
    ensures
        first_nul(all) is Some <==> exists|i: int| 0 <= i < all.len() && has_zero(#[trigger] all[i]),
    decreases all.len(),
{
    if all.len() > 0 {
        let init = all.drop_last();
        lemma_zero_in(init);
        lemma_zero(all.last());
        assert(all[all.len() - 1] == all.last());
        if exists|i: int| 0 <= i < init.len() && has_zero(#[trigger] init[i]) {
            let i = choose|i: int| 0 <= i < init.len() && has_zero(#[trigger] init[i]);
            assert(has_zero(all[i]));
        }
        if exists|i: int| 0 <= i < all.len() && has_zero(#[trigger] all[i]) {
            let i = choose|i: int| 0 <= i < all.len() && has_zero(#[trigger] all[i]);
            if i < init.len() {
                assert(has_zero(init[i]));
            }
        }
    }
}

/// Whether a variable has a zero byte in its name or value.
pub open spec fn has_zero_in_pair(pair: (Seq<char>, Seq<char>)) -> bool {
    has_zero(pair.0) || has_zero(pair.1)
}

proof fn lemma_zero_in_env(env: Seq<(Seq<char>, Seq<char>)>)
    ensures
        first_nul_of_env(env) is Some <==> exists|i: int|
            0 <= i < env.len() && has_zero_in_pair(#[trigger] env[i]),
    decreases env.len(),
{
    if env.len() > 0 {
        let init = env.drop_last();
        lemma_zero_in_env(init);
        lemma_zero(env.last().0);
        lemma_zero(env.last().1);
        assert(env[env.len() - 1] == env.last());
        if exists|i: int| 0 <= i < init.len() && has_zero_in_pair(#[trigger] init[i]) {
            let i = choose|i: int| 0 <= i < init.len() && has_zero_in_pair(#[trigger] init[i]);
            assert(has_zero_in_pair(env[i]));
        }
        if exists|i: int| 0 <= i < env.len() && has_zero_in_pair(#[trigger] env[i]) {
            let i = choose|i: int| 0 <= i < env.len() && has_zero_in_pair(#[trigger] env[i]);
            if i < init.len() {
                assert(has_zero_in_pair(init[i]));
            }
        }
    }
}

/// A shell cannot be started exactly where its program, an argument, its directory
/// or a variable holds a zero byte.
pub proof fn law_zero_bytes_are_refused(v: SpawnView)
    ensures
        nul_of(v) is Some <==> {
            ||| has_zero(v.program)
            ||| exists|i: int| 0 <= i < v.args.len() && has_zero(#[trigger] v.args[i])
            ||| v.cwd is Some && has_zero(v.cwd->0)
            ||| exists|i: int| 0 <= i < v.env.len() && has_zero_in_pair(#[trigger] v.env[i])
        },
        has_zero(v.program) ==> encode_utf8(v.program)[nul_of(v)->0] == 0,
{
    lemma_zero(v.program);
    lemma_zero_in(v.args);
    if v.cwd is Some {
        lemma_zero(v.cwd->0);
    }
    lemma_zero_in_env(v.env);
}

/// A shell is started as it was asked for: under its own name, with its arguments
/// behind it, in its directory, at 25 lines of 80 columns.
pub proof fn law_a_shell_is_started_as_asked(args: &SpawnArgs, made: Result<SpawnSpec, usize>)
    requires
        call_ensures(spawn_spec, (args,), made),
    ensures
        made is Ok <==> nul_of(args@) is None,
        made is Ok ==> {
            &&& made->Ok_0.program@ == args.program@
            &&& texts(made->Ok_0.argv@).len() == args.args@.len() + 1
            &&& texts(made->Ok_0.argv@)[0] == args.program@
            &&& texts(made->Ok_0.argv@).skip(1) == texts(args.args@)
            &&& opt_text(made->Ok_0.cwd) == opt_text(args.cwd)
            &&& pairs(made->Ok_0.env@) == pane_env(pairs(args.env@))
            &&& made->Ok_0.rows == 25
            &&& made->Ok_0.cols == 80
        },
{
    if made is Ok {
        assert(texts(made->Ok_0.argv@).skip(1) =~= texts(args.args@));
    }
}

/// A pane has the id that was asked for, where that is one, and a fresh one only
/// where none was asked for.
pub proof fn law_a_pane_has_the_id_asked_for(args: &SpawnArgs, choice: IdChoice)
    requires
        call_ensures(choose_id, (args,), choice),
    ensures
        choice is Fresh <==> args.pane_id is None,
        choice is Given ==> args.pane_id is Some && choice->Given_0@ == args.pane_id->0@,
        choice is Given ==> args.pane_id->0@.len() == 32,
        choice is Given ==> forall|i: int|
            0 <= i < 32 ==> {
                ||| '0' <= #[trigger] args.pane_id->0@[i] <= '9'
                ||| 'a' <= args.pane_id->0@[i] <= 'f'
            },
        choice is Invalid ==> args.pane_id is Some,
{
}

} // verus!
