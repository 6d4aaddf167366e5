//! The built-in commands — the ones that must run inside the shell's own
//! process because they mutate shell-wide state: `cd` (working
//! directory), `exit` (the shell itself), `export` (the environment the
//! next children inherit).
//!
//! Recognition and argument handling are decided here; the one
//! operating-system step of `cd` — actually changing directory — is
//! performed by the surrounding program, which reports its outcome back
//! to [`ShellState::apply_chdir`]. Built-ins run only when they are the
//! sole command of their pipeline: inside a multi-stage pipeline their
//! state change could not reach the shell.

use vstd::prelude::*;

use crate::command::Pipeline;
use crate::line_parser::fd_value;
use crate::line_parser::is_fd_text;
use crate::line_parser::parse_fd_word;
use vstd::string::StrSliceExecFns;
use vstd::string::StringExecFns;

verus! {

/// A recognized built-in invocation, arguments already interpreted.
#[derive(Clone, Debug)]
pub enum BuiltinCall {
    /// `cd [path]`; no path means the caller's notion of home.
    Cd { target: Option<String> },
    /// `exit [code]`; no code means 0, an unreadable code means 2.
    Exit { code: i32 },
    /// `export NAME=VALUE`.
    Export { name: String, value: String },
    /// A built-in called with arguments it cannot use (an `export`
    /// without `NAME=VALUE`): status 1, no state change.
    Invalid,
}

/// Ghost mirror of [`BuiltinCall`].
pub enum BuiltinCallS {
    Cd { target: Option<Seq<char>> },
    Exit { code: int },
    Export { name: Seq<char>, value: Seq<char> },
    Invalid,
}

impl View for BuiltinCall {
    type V = BuiltinCallS;

    open spec fn view(&self) -> BuiltinCallS {
        match self {
            BuiltinCall::Cd { target } => BuiltinCallS::Cd {
                target: match target {
                    Some(t) => Some(t@),
                    None => None,
                },
            },
            BuiltinCall::Exit { code } => BuiltinCallS::Exit { code: *code as int },
            BuiltinCall::Export { name, value } => BuiltinCallS::Export {
                name: name@,
                value: value@,
            },
            BuiltinCall::Invalid => BuiltinCallS::Invalid,
        }
    }
}

/// How one command is realized: in-process as a built-in, or spawned as
/// an external process.
#[derive(Clone, Debug)]
pub enum Invocation {
    Builtin(BuiltinCall),
    External,
}

/// Ghost mirror of [`Invocation`].
pub enum InvocationS {
    Builtin(BuiltinCallS),
    External,
}

impl View for Invocation {
    type V = InvocationS;

    open spec fn view(&self) -> InvocationS {
        match self {
            Invocation::Builtin(b) => InvocationS::Builtin(b@),
            Invocation::External => InvocationS::External,
        }
    }
}

pub open spec fn cd_word() -> Seq<char> {
    seq!['c', 'd']
}

pub open spec fn exit_word() -> Seq<char> {
    seq!['e', 'x', 'i', 't']
}

pub open spec fn export_word() -> Seq<char> {
    seq!['e', 'x', 'p', 'o', 'r', 't']
}

/// The code `exit` reports: 0 with no argument, the argument read as a
/// decimal number, or 2 when the argument is not one (or does not fit).
pub open spec fn exit_code_of(argv: Seq<Seq<char>>) -> int {
    if argv.len() <= 1 {
        0
    } else if is_fd_text(argv[1]) {
        fd_value(argv[1]) as int
    } else {
        2
    }
}

/// The first `=` in a word, or -1 if none.
pub open spec fn find_eq(s: Seq<char>, i: int) -> int
    decreases s.len() - i,
{
    if i < 0 || i >= s.len() {
        -1
    } else if s[i] == '=' {
        i
    } else {
        find_eq(s, i + 1)
    }
}

/// How an `export` invocation is read: its argument must be
/// `NAME=VALUE` with a non-empty name; anything else is invalid.
pub open spec fn export_call_of(argv: Seq<Seq<char>>) -> BuiltinCallS {
    if argv.len() <= 1 {
        BuiltinCallS::Invalid
    } else {
        let arg = argv[1];
        let p = find_eq(arg, 0);
        if p <= 0 {
            BuiltinCallS::Invalid
        } else {
            BuiltinCallS::Export {
                name: arg.subrange(0, p),
                value: arg.subrange(p + 1, arg.len() as int),
            }
        }
    }
}

/// How a command is dispatched, by its first word: the three built-ins
/// run in-process, everything else is spawned.
pub open spec fn classify_spec(argv: Seq<Seq<char>>) -> InvocationS {
    if argv[0] == cd_word() {
        InvocationS::Builtin(
            BuiltinCallS::Cd {
                target: if argv.len() > 1 {
                    Some(argv[1])
                } else {
                    None
                },
            },
        )
    } else if argv[0] == exit_word() {
        InvocationS::Builtin(BuiltinCallS::Exit { code: exit_code_of(argv) })
    } else if argv[0] == export_word() {
        InvocationS::Builtin(export_call_of(argv))
    } else {
        InvocationS::External
    }
}

/// Whether a word is exactly `cd`.
fn word_is_cd(s: &String) -> (r: bool)
    ensures
        r == (s@ == cd_word()),
{
    let st = s.as_str();
    if st.unicode_len() != 2 {
        return false;
    }
    let r = st.get_char(0) == 'c' && st.get_char(1) == 'd';
    proof {
        if r {
            assert(s@ =~= cd_word());
        }
    }
    r
}

/// Whether a word is exactly `exit`.
fn word_is_exit(s: &String) -> (r: bool)
    ensures
        r == (s@ == exit_word()),
{
    let st = s.as_str();
    if st.unicode_len() != 4 {
        return false;
    }
    let r = st.get_char(0) == 'e' && st.get_char(1) == 'x' && st.get_char(2) == 'i'
        && st.get_char(3) == 't';
    proof {
        if r {
            assert(s@ =~= exit_word());
        }
    }
    r
}

/// Whether a word is exactly `export`.
fn word_is_export(s: &String) -> (r: bool)
    ensures
        r == (s@ == export_word()),
{
    let st = s.as_str();
    if st.unicode_len() != 6 {
        return false;
    }
    let r = st.get_char(0) == 'e' && st.get_char(1) == 'x' && st.get_char(2) == 'p'
        && st.get_char(3) == 'o' && st.get_char(4) == 'r' && st.get_char(5) == 't';
    proof {
        if r {
            assert(s@ =~= export_word());
        }
    }
    r
}

/// Split `NAME=VALUE` at its first `=`, or report that the word is not
/// of that shape (no `=`, or an empty name).
fn split_assignment(arg: &String) -> (r: Option<(String, String)>)
    ensures
        r matches Some(nv) ==> find_eq(arg@, 0) > 0 && nv.0@ == arg@.subrange(0, find_eq(arg@, 0))
            && nv.1@ == arg@.subrange(find_eq(arg@, 0) + 1, arg@.len() as int),
        r is None ==> find_eq(arg@, 0) <= 0,
{
    let st = arg.as_str();
    let n = st.unicode_len();
    let mut p: usize = 0;
    let mut found: bool = false;
    while !found && p < n
        invariant
            n == st@.len(),
            st@ == arg@,
            0 <= p <= n,
            found ==> p < n && find_eq(arg@, 0) == p,
            !found ==> find_eq(arg@, 0) == find_eq(arg@, p as int),
        decreases n - p, (if found { 0int } else { 1int }),
    {
        if st.get_char(p) == '=' {
            found = true;
        } else {
            p = p + 1;
        }
    }
    if !found || p == 0 {
        return None;
    }
    let name = String::from_str(st.substring_char(0, p));
    let value = String::from_str(st.substring_char(p + 1, n));
    Some((name, value))
}

/// Dispatch one command by its first word.
pub fn classify(argv: &Vec<String>) -> (r: Invocation)
    requires
        argv@.len() > 0,
    ensures
        r@ == classify_spec(argv@.map_values(|a: String| a@)),
{
    let ghost argv_v = argv@.map_values(|a: String| a@);
    proof {
        assert(argv_v[0] == argv@[0]@);
    }
    let head = &argv[0];
    if word_is_cd(head) {
        let target: Option<String> = if argv.len() > 1 {
            proof {
                assert(argv_v[1] == argv@[1]@);
            }
            Some(argv[1].clone())
        } else {
            None
        };
        Invocation::Builtin(BuiltinCall::Cd { target })
    } else if word_is_exit(head) {
        let code: i32 = if argv.len() <= 1 {
            0
        } else {
            proof {
                assert(argv_v[1] == argv@[1]@);
            }
            match parse_fd_word(&argv[1]) {
                Some(v) => {
                    proof {
                        crate::line_parser::lemma_fd_value_bound(argv@[1]@);
                        crate::line_parser::lemma_pow10_le(argv@[1]@.len() as nat, 9);
                        assert(crate::line_parser::pow10(9) == 1000000000) by {
                            reveal_with_fuel(crate::line_parser::pow10, 10);
                        }
                    }
                    v as i32
                },
                None => 2,
            }
        };
        Invocation::Builtin(BuiltinCall::Exit { code })
    } else if word_is_export(head) {
        if argv.len() <= 1 {
            Invocation::Builtin(BuiltinCall::Invalid)
        } else {
            proof {
                assert(argv_v[1] == argv@[1]@);
            }
            match split_assignment(&argv[1]) {
                Some((name, value)) => Invocation::Builtin(
                    BuiltinCall::Export { name, value },
                ),
                None => Invocation::Builtin(BuiltinCall::Invalid),
            }
        }
    } else {
        Invocation::External
    }
}

/// The built-in a pipeline runs in-process, if any: built-ins apply only
/// when the pipeline consists of exactly one command.
pub fn builtin_for_pipeline(p: &Pipeline) -> (r: Option<BuiltinCall>)
    requires
        p@.wf(),
    ensures
        r matches Some(b) ==> p@.commands.len() == 1 && classify_spec(p@.commands[0].argv)
            == InvocationS::Builtin(b@),
        r is None ==> (p@.commands.len() != 1 || classify_spec(p@.commands[0].argv)
            == InvocationS::External),
{
    if p.commands.len() != 1 {
        return None;
    }
    proof {
        assert(p@.commands[0] == p.commands@[0]@);
    }
    match classify(&p.commands[0].argv) {
        Invocation::Builtin(b) => Some(b),
        Invocation::External => None,
    }
}

/// The process-wide state the built-ins mutate: the working directory
/// and the environment the next spawned children inherit. The variable
/// list grows at the front, and a lookup takes the first match, so a
/// later `export` shadows an earlier one.
pub struct ShellState {
    pub cwd: String,
    pub vars: Vec<(String, String)>,
}

/// The value a name has in the environment: the first (most recent)
/// binding.
pub open spec fn lookup(vars: Seq<(Seq<char>, Seq<char>)>, name: Seq<char>) -> Option<Seq<char>>
    decreases vars.len(),
{
    if vars.len() == 0 {
        None
    } else if vars[0].0 == name {
        Some(vars[0].1)
    } else {
        lookup(vars.drop_first(), name)
    }
}

pub open spec fn view_vars(vars: Seq<(String, String)>) -> Seq<(Seq<char>, Seq<char>)> {
    vars.map_values(|p: (String, String)| (p.0@, p.1@))
}

impl ShellState {
    /// A fresh state: the given working directory, no variables of its
    /// own yet.
    pub fn new(cwd: String) -> (r: ShellState)
        ensures
            r.cwd@ == cwd@,
            view_vars(r.vars@) == Seq::<(Seq<char>, Seq<char>)>::empty(),
    {
        let r = ShellState { cwd, vars: Vec::new() };
        proof {
            assert(view_vars(r.vars@) =~= Seq::<(Seq<char>, Seq<char>)>::empty());
        }
        r
    }

    /// Apply the outcome of `cd`, as the operating system reported it:
    /// on success the new working directory is recorded; on failure the
    /// state — in particular the working directory — is unchanged and
    /// the built-in reports a nonzero status.
    pub fn apply_chdir(&mut self, outcome: Option<String>) -> (status: i32)
        ensures
            outcome matches Some(p) ==> final(self).cwd@ == p@ && final(self).vars
                == old(self).vars && status == 0,
            outcome is None ==> final(self).cwd == old(self).cwd && final(self).vars
                == old(self).vars && status != 0,
    {
        match outcome {
            Some(p) => {
                self.cwd = p;
                0
            },
            None => 1,
        }
    }

    /// Bind `name` to `value` for every child spawned from now on. The
    /// new binding shadows any earlier one; every other name keeps its
    /// value; the working directory is untouched.
    pub fn set_var(&mut self, name: String, value: String) -> (status: i32)
        ensures
            lookup(view_vars(final(self).vars@), name@) == Some(value@),
            forall|n: Seq<char>|
                n != name@ ==> lookup(view_vars(final(self).vars@), n) == lookup(
                    view_vars(old(self).vars@),
                    n,
                ),
            final(self).cwd == old(self).cwd,
            status == 0,
    {
        let ghost old_vars = view_vars(self.vars@);
        self.vars.insert(0, (name, value));
        proof {
            assert(view_vars(self.vars@).drop_first() =~= old_vars);
        }
        0
    }

    /// The value `name` has for children spawned now, if any.
    pub fn get_var(&self, name: &String) -> (r: Option<&String>)
        ensures
            r matches Some(v) ==> lookup(view_vars(self.vars@), name@) == Some(v@),
            r is None ==> lookup(view_vars(self.vars@), name@) is None,
    {
        let mut i: usize = 0;
        proof {
            assert(self.vars@.skip(0) =~= self.vars@);
        }
        while i < self.vars.len()
            invariant
                0 <= i <= self.vars.len(),
                lookup(view_vars(self.vars@), name@) == lookup(
                    view_vars(self.vars@.skip(i as int)),
                    name@,
                ),
            decreases self.vars.len() - i,
        {
            proof {
                assert(view_vars(self.vars@.skip(i as int))[0] == (
                    self.vars@[i as int].0@,
                    self.vars@[i as int].1@,
                ));
                assert(view_vars(self.vars@.skip(i as int)).drop_first() =~= view_vars(
                    self.vars@.skip(i + 1),
                ));
            }
            if self.vars[i].0 == *name {
                return Some(&self.vars[i].1);
            }
            i = i + 1;
        }
        proof {
            assert(view_vars(self.vars@.skip(self.vars@.len() as int)).len() == 0);
        }
        None
    }

    /// Run one built-in against the state. `cd`'s real directory change
    /// is the caller's: it reports the outcome through
    /// [`ShellState::apply_chdir`] instead. `exit` is likewise the
    /// caller's to perform; this reports the code it will carry.
    pub fn apply_export(&mut self, call: &BuiltinCall) -> (status: i32)
        requires
            call@ is Export || call@ is Invalid,
        ensures
            call@ matches BuiltinCallS::Export { name, value } ==> status == 0 && lookup(
                view_vars(final(self).vars@),
                name,
            ) == Some(value) && final(self).cwd == old(self).cwd && (forall|n: Seq<char>|
                n != name ==> lookup(view_vars(final(self).vars@), n) == lookup(
                    view_vars(old(self).vars@),
                    n,
                )),
            call@ is Invalid ==> status != 0 && final(self).cwd == old(self).cwd
                && final(self).vars == old(self).vars,
    {
        match call {
            BuiltinCall::Export { name, value } => self.set_var(name.clone(), value.clone()),
            _ => 1,
        }
    }
}

} // verus!
