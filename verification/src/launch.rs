//! What a pane is started with.
use crate::pane::{opt_text, texts};
use crate::text::same_text;
use vstd::prelude::*;
use vstd::utf8::encode_utf8;

verus! {

/// Window size of a pane before its first client reports one.
pub const INITIAL_ROWS: u16 = 25;

pub const INITIAL_COLS: u16 = 80;

/// What `spawn` was asked for.
#[derive(Clone, Debug)]
pub struct SpawnArgs {
    pub pane_id: Option<String>,
    pub cwd: Option<String>,
    pub ring_size: usize,
    pub env: Vec<(String, String)>,
    pub session: Option<String>,
    pub program: String,
    pub args: Vec<String>,
}

/// The mathematical value of [`SpawnArgs`].
#[verifier::ext_equal]
pub struct SpawnView {
    pub pane_id: Option<Seq<char>>,
    pub cwd: Option<Seq<char>>,
    pub ring_size: nat,
    pub env: Seq<(Seq<char>, Seq<char>)>,
    pub session: Option<Seq<char>>,
    pub program: Seq<char>,
    pub args: Seq<Seq<char>>,
}

pub open spec fn pairs(env: Seq<(String, String)>) -> Seq<(Seq<char>, Seq<char>)> {
    Seq::new(env.len(), |i: int| (env[i].0@, env[i].1@))
}

impl View for SpawnArgs {
    type V = SpawnView;

    open spec fn view(&self) -> SpawnView {
        SpawnView {
            pane_id: opt_text(self.pane_id),
            cwd: opt_text(self.cwd),
            ring_size: self.ring_size as nat,
            env: pairs(self.env@),
            session: opt_text(self.session),
            program: self.program@,
            args: texts(self.args@),
        }
    }
}

/// How the shell is executed.
#[derive(Clone, Debug)]
pub struct SpawnSpec {
    pub program: String,
    /// The program again, then its arguments.
    pub argv: Vec<String>,
    pub cwd: Option<String>,
    pub env: Vec<(String, String)>,
    pub rows: u16,
    pub cols: u16,
}

pub open spec fn has_variable(env: Seq<(Seq<char>, Seq<char>)>, name: Seq<char>) -> bool {
    exists|i: int| 0 <= i < env.len() && (#[trigger] env[i]).0 == name
}

/// An environment with a variable added where it is missing.
pub open spec fn with_default(
    env: Seq<(Seq<char>, Seq<char>)>,
    name: Seq<char>,
    value: Seq<char>,
) -> Seq<(Seq<char>, Seq<char>)> {
    if has_variable(env, name) {
        env
    } else {
        env.push((name, value))
    }
}

/// The environment of a pane: terminal type and colours have defaults.
pub open spec fn pane_env(env: Seq<(Seq<char>, Seq<char>)>) -> Seq<(Seq<char>, Seq<char>)> {
    with_default(
        with_default(env, "TERM"@, "xterm-256color"@),
        "COLORTERM"@,
        "truecolor"@,
    )
}

/// Where the first NUL of a text stands among its bytes. The operating system
/// cannot take such a text.
pub open spec fn nul_position(text: Seq<char>) -> Option<int> {
    encode_utf8(text).index_of_first(0u8)
}

pub open spec fn first_of(a: Option<int>, b: Option<int>) -> Option<int> {
    match a {
        Some(at) => Some(at),
        None => b,
    }
}

/// Where the NUL stands in the first text that holds one.
pub open spec fn first_nul(all: Seq<Seq<char>>) -> Option<int>
    decreases all.len(),
{
    if all.len() == 0 {
        None
    } else {
        first_of(first_nul(all.drop_last()), nul_position(all.last()))
    }
}

/// The same of variables, each name before its value.
pub open spec fn first_nul_of_env(env: Seq<(Seq<char>, Seq<char>)>) -> Option<int>
    decreases env.len(),
{
    if env.len() == 0 {
        None
    } else {
        first_of(
            first_nul_of_env(env.drop_last()),
            first_of(nul_position(env.last().0), nul_position(env.last().1)),
        )
    }
}

/// Where the first NUL stands in what is handed to the operating system: the
/// program, its arguments, the directory, the environment.
pub open spec fn nul_of(v: SpawnView) -> Option<int> {
    first_of(
        nul_position(v.program),
        first_of(
            first_nul(v.args),
            first_of(
                match v.cwd {
                    Some(cwd) => nul_position(cwd),
                    None => None,
                },
                first_nul_of_env(v.env),
            ),
        ),
    )
}

fn find_nul(text: &str) -> (at: Option<usize>)
    ensures
        match at {
            Some(at) => nul_position(text@) == Some(at as int),
            None => nul_position(text@) is None,
        },
{
    let bytes = text.as_bytes();
    let mut i: usize = 0;
    proof {
        bytes@.index_of_first_ensures(0u8);
    }
    while i < bytes.len()
        invariant
            i <= bytes@.len(),
            bytes@ == encode_utf8(text@),
            forall|j: int| 0 <= j < i ==> #[trigger] bytes@[j] != 0,
        decreases bytes.len() - i,
    {
        if bytes[i] == 0 {
            proof {
                bytes@.index_of_first_ensures(0u8);
                assert(bytes@.contains(bytes@[i as int]));
            }
            return Some(i);
        }
        i = i + 1;
    }
    None
}

/// Adds a variable where it is missing.
fn add_default(env: &mut Vec<(String, String)>, name: &str, value: &str)
    ensures
        pairs(final(env)@) == with_default(pairs(old(env)@), name@, value@),
{
    let ghost before = pairs(env@);
    let mut i: usize = 0;
    while i < env.len()
        invariant
            i <= env@.len(),
            pairs(env@) == before,
            forall|j: int| 0 <= j < i ==> (#[trigger] before[j]).0 != name@,
        decreases env.len() - i,
    {
        if same_text(env[i].0.as_str(), name) {
            assert(before[i as int].0 == name@);
            return ;
        }
        i = i + 1;
    }
    env.push((name.to_owned(), value.to_owned()));
    assert(pairs(env@) =~= before.push((name@, value@)));
}

pub(crate) fn copy_texts(all: &Vec<String>) -> (out: Vec<String>)
    ensures
        texts(out@) == texts(all@),
{
    let mut out: Vec<String> = Vec::new();
    let mut i: usize = 0;
    while i < all.len()
        invariant
            i <= all@.len(),
            out@.len() == i,
            forall|j: int| 0 <= j < i ==> (#[trigger] out@[j])@ == all@[j]@,
        decreases all.len() - i,
    {
        out.push(all[i].clone());
        i = i + 1;
    }
    assert(texts(out@) =~= texts(all@));
    out
}

fn copy_pairs(all: &Vec<(String, String)>) -> (out: Vec<(String, String)>)
    ensures
        pairs(out@) == pairs(all@),
{
    let mut out: Vec<(String, String)> = Vec::new();
    let mut i: usize = 0;
    while i < all.len()
        invariant
            i <= all@.len(),
            out@.len() == i,
            forall|j: int|
                0 <= j < i ==> (#[trigger] out@[j]).0@ == all@[j].0@ && out@[j].1@ == all@[j].1@,
        decreases all.len() - i,
    {
        out.push((all[i].0.clone(), all[i].1.clone()));
        i = i + 1;
    }
    assert(pairs(out@) =~= pairs(all@));
    out
}

fn find_nul_in(all: &Vec<String>) -> (at: Option<usize>)
    ensures
        match at {
            Some(at) => first_nul(texts(all@)) == Some(at as int),
            None => first_nul(texts(all@)) is None,
        },
{
    let ghost views = texts(all@);
    let mut found: Option<usize> = None;
    let mut i: usize = 0;
    assert(views.take(0) =~= Seq::<Seq<char>>::empty());
    while i < all.len()
        invariant
            i <= all@.len(),
            views == texts(all@),
            match found {
                Some(at) => first_nul(views.take(i as int)) == Some(at as int),
                None => first_nul(views.take(i as int)) is None,
            },
        decreases all.len() - i,
    {
        assert(views.take(i + 1).drop_last() =~= views.take(i as int));
        assert(views.take(i + 1).last() == all@[i as int]@);
        if found.is_none() {
            found = find_nul(all[i].as_str());
        }
        i = i + 1;
    }
    assert(views.take(i as int) =~= views);
    found
}

fn find_nul_in_env(env: &Vec<(String, String)>) -> (at: Option<usize>)
    ensures
        match at {
            Some(at) => first_nul_of_env(pairs(env@)) == Some(at as int),
            None => first_nul_of_env(pairs(env@)) is None,
        },
{
    let ghost views = pairs(env@);
    let mut found: Option<usize> = None;
    let mut i: usize = 0;
    assert(views.take(0) =~= Seq::<(Seq<char>, Seq<char>)>::empty());
    while i < env.len()
        invariant
            i <= env@.len(),
            views == pairs(env@),
            match found {
                Some(at) => first_nul_of_env(views.take(i as int)) == Some(at as int),
                None => first_nul_of_env(views.take(i as int)) is None,
            },
        decreases env.len() - i,
    {
        assert(views.take(i + 1).drop_last() =~= views.take(i as int));
        assert(views.take(i + 1).last() == (env@[i as int].0@, env@[i as int].1@));
        if found.is_none() {
            found = find_nul(env[i].0.as_str());
        }
        if found.is_none() {
            found = find_nul(env[i].1.as_str());
        }
        i = i + 1;
    }
    assert(views.take(i as int) =~= views);
    found
}

/// Where the first NUL stands in what is handed to the operating system.
fn find_fault(args: &SpawnArgs) -> (at: Option<usize>)
    ensures
        match at {
            Some(at) => nul_of(args@) == Some(at as int),
            None => nul_of(args@) is None,
        },
{
    let mut found: Option<usize> = find_nul(args.program.as_str());
    if found.is_none() {
        found = find_nul_in(&args.args);
    }
    if found.is_none() {
        if let Some(cwd) = &args.cwd {
            found = find_nul(cwd.as_str());
        }
    }
    if found.is_none() {
        found = find_nul_in_env(&args.env);
    }
    found
}

/// How a pane's shell is executed. Where some text holds a NUL the operating
/// system could not take it: then where that stands in the first such text.
pub fn spawn_spec(args: &SpawnArgs) -> (spec_: Result<SpawnSpec, usize>)
    ensures
        match spec_ {
            Ok(s) => {
                &&& nul_of(args@) is None
                &&& s.program@ == args@.program
                &&& texts(s.argv@) == seq![args@.program] + args@.args
                &&& opt_text(s.cwd) == args@.cwd
                &&& pairs(s.env@) == pane_env(args@.env)
                &&& s.rows == INITIAL_ROWS
                &&& s.cols == INITIAL_COLS
            },
            Err(at) => nul_of(args@) == Some(at as int),
        },
{
    if let Some(at) = find_fault(args) {
        return Err(at);
    }
    let mut argv: Vec<String> = vec![args.program.clone()];
    let mut rest = copy_texts(&args.args);
    let ghost first = texts(argv@);
    let ghost others = texts(rest@);
    argv.append(&mut rest);
    assert(texts(argv@) =~= seq![args@.program] + others);
    let mut env = copy_pairs(&args.env);
    add_default(&mut env, "TERM", "xterm-256color");
    add_default(&mut env, "COLORTERM", "truecolor");
    Ok(
        SpawnSpec {
            program: args.program.clone(),
            argv,
            cwd: match &args.cwd {
                Some(cwd) => Some(cwd.clone()),
                None => None,
            },
            env,
            rows: INITIAL_ROWS,
            cols: INITIAL_COLS,
        },
    )
}

/// Which pane id a spawn uses.
#[derive(Clone, Debug)]
pub enum IdChoice {
    /// The caller's own, which must not have a live daemon yet.
    Given(String),
    /// A fresh one.
    Fresh,
    /// The caller's own is no pane id.
    Invalid,
}

/// Decides on the pane id of a spawn.
pub fn choose_id(args: &SpawnArgs) -> (choice: IdChoice)
    ensures
        match args@.pane_id {
            None => choice is Fresh,
            Some(id) => if crate::pane::valid_pane_id(id) {
                choice matches IdChoice::Given(given) && given@ == id
            } else {
                choice is Invalid
            },
        },
{
    match &args.pane_id {
        None => IdChoice::Fresh,
        Some(id) => if crate::pane::is_valid_pane_id(id.as_str()) {
            IdChoice::Given(id.clone())
        } else {
            IdChoice::Invalid
        },
    }
}

} // verus!
