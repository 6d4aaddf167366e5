//! The structured representation of one parsed shell statement: commands,
//! redirections, pipelines, and the join operators between pipelines.
//!
//! Each executable type has a ghost mirror (`CommandS`, `PipelineS`, ...)
//! over mathematical sequences, reached through `View`; the parser's and
//! executor's contracts are stated over those mirrors.

use vstd::prelude::*;

verus! {

/// A statement that cannot be parsed: an operator is missing its operand
/// (a trailing `|`, a redirection with no target, `&` in the middle of a
/// statement, and the like). The whole line is rejected and nothing runs.
#[derive(Clone, Copy, PartialEq, Eq, Structural, Debug)]
pub enum ParseError {
    DanglingOperator,
}

/// The control relation between one pipeline and the next in a statement.
/// The operator attached to pipeline `i` decides whether pipeline `i + 1`
/// runs, given the last executed status. `End` closes the statement.
#[derive(Clone, Copy, PartialEq, Eq, Structural, Debug)]
pub enum JoinOperator {
    /// `;` — the next pipeline always runs.
    Sequential,
    /// `&&` — the next pipeline runs only on success (status 0).
    AndThen,
    /// `||` — the next pipeline runs only on failure (nonzero status).
    OrElse,
    /// No operator: nothing follows.
    End,
}

/// One redirection attached to a command, in source order. `fd` is the
/// descriptor being redirected (0 for `<`, 1 for `>` and `>>` unless an
/// explicit number such as `2>` was written).
#[derive(Clone, Debug)]
pub enum RedirectSpec {
    /// `< path` — open `path` read-only as descriptor `fd`.
    Input { fd: u32, path: String },
    /// `> path` — create or truncate `path` as descriptor `fd`.
    Output { fd: u32, path: String },
    /// `>> path` — create or append to `path` as descriptor `fd`.
    Append { fd: u32, path: String },
    /// `>&n` / `<&n` — duplicate descriptor `target` onto descriptor `fd`,
    /// with no filesystem access.
    FdDup { fd: u32, target: u32 },
}

/// Ghost mirror of [`RedirectSpec`].
pub enum RedirectSpecS {
    Input { fd: u32, path: Seq<char> },
    Output { fd: u32, path: Seq<char> },
    Append { fd: u32, path: Seq<char> },
    FdDup { fd: u32, target: u32 },
}

impl View for RedirectSpec {
    type V = RedirectSpecS;

    open spec fn view(&self) -> RedirectSpecS {
        match self {
            RedirectSpec::Input { fd, path } => RedirectSpecS::Input { fd: *fd, path: path@ },
            RedirectSpec::Output { fd, path } => RedirectSpecS::Output { fd: *fd, path: path@ },
            RedirectSpec::Append { fd, path } => RedirectSpecS::Append { fd: *fd, path: path@ },
            RedirectSpec::FdDup { fd, target } => RedirectSpecS::FdDup {
                fd: *fd,
                target: *target,
            },
        }
    }
}

/// One simple command: its argument vector (`argv[0]` is the program or
/// built-in name) and its redirections in the order they were written.
/// Later redirections of the same descriptor override earlier ones.
#[derive(Clone, Debug)]
pub struct Command {
    pub argv: Vec<String>,
    pub redirects: Vec<RedirectSpec>,
}

/// Ghost mirror of [`Command`].
pub struct CommandS {
    pub argv: Seq<Seq<char>>,
    pub redirects: Seq<RedirectSpecS>,
}

impl View for Command {
    type V = CommandS;

    open spec fn view(&self) -> CommandS {
        CommandS {
            argv: self.argv@.map_values(|a: String| a@),
            redirects: self.redirects@.map_values(|r: RedirectSpec| r@),
        }
    }
}

impl CommandS {
    /// A command always names a program: its argument vector is non-empty.
    pub open spec fn wf(self) -> bool {
        self.argv.len() > 0
    }
}

/// One or more commands connected left to right by anonymous pipes:
/// the standard output of command `i` feeds the standard input of
/// command `i + 1`. A background pipeline is not waited for.
#[derive(Clone, Debug)]
pub struct Pipeline {
    pub commands: Vec<Command>,
    pub background: bool,
}

/// Ghost mirror of [`Pipeline`].
pub struct PipelineS {
    pub commands: Seq<CommandS>,
    pub background: bool,
}

impl View for Pipeline {
    type V = PipelineS;

    open spec fn view(&self) -> PipelineS {
        PipelineS {
            commands: self.commands@.map_values(|c: Command| c@),
            background: self.background,
        }
    }
}

impl PipelineS {
    /// A pipeline holds at least one command, and each command is well
    /// formed.
    pub open spec fn wf(self) -> bool {
        &&& self.commands.len() > 0
        &&& forall|i: int| 0 <= i < self.commands.len() ==> (#[trigger] self.commands[i]).wf()
    }
}

/// One pipeline of a statement together with the join operator written
/// after it, which governs whether the next pipeline runs.
#[derive(Clone, Debug)]
pub struct ListEntry {
    pub pipeline: Pipeline,
    pub join: JoinOperator,
}

/// Ghost mirror of [`ListEntry`].
pub struct ListEntryS {
    pub pipeline: PipelineS,
    pub join: JoinOperator,
}

impl View for ListEntry {
    type V = ListEntryS;

    open spec fn view(&self) -> ListEntryS {
        ListEntryS { pipeline: self.pipeline@, join: self.join }
    }
}

/// A whole parsed statement: pipelines in source order, each carrying the
/// join operator that follows it.
#[derive(Clone, Debug)]
pub struct CommandList {
    pub entries: Vec<ListEntry>,
}

impl View for CommandList {
    type V = Seq<ListEntryS>;

    open spec fn view(&self) -> Seq<ListEntryS> {
        self.entries@.map_values(|e: ListEntry| e@)
    }
}

/// A parsed statement holds at least one pipeline and every pipeline is
/// well formed.
pub open spec fn list_wf(entries: Seq<ListEntryS>) -> bool {
    &&& entries.len() > 0
    &&& forall|i: int| 0 <= i < entries.len() ==> (#[trigger] entries[i]).pipeline.wf()
}

} // verus!
