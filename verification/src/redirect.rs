//! Turning the redirections of one command into a plan of concrete
//! file-descriptor actions.
//!
//! The resolver only plans: it decides, for each redirection, which file
//! is opened with which mode onto which descriptor, or which descriptor
//! is duplicated onto which. The surrounding program performs the opens
//! and duplications in plan order, immediately before the command runs;
//! a failure there aborts that one command without spawning it.

use vstd::prelude::*;

use crate::command::RedirectSpec;
use crate::command::RedirectSpecS;

verus! {

/// One concrete descriptor operation. `Dup` touches no file: it makes
/// descriptor `to_fd` a copy of what `from_fd` refers to at that moment,
/// so dup actions observe the effect of the actions planned before them.
#[derive(Clone, Debug)]
pub enum FdAction {
    OpenRead { path: String, fd: u32 },
    OpenWrite { path: String, fd: u32 },
    OpenAppend { path: String, fd: u32 },
    Dup { from_fd: u32, to_fd: u32 },
}

/// Ghost mirror of [`FdAction`].
pub enum FdActionS {
    OpenRead { path: Seq<char>, fd: u32 },
    OpenWrite { path: Seq<char>, fd: u32 },
    OpenAppend { path: Seq<char>, fd: u32 },
    Dup { from_fd: u32, to_fd: u32 },
}

impl View for FdAction {
    type V = FdActionS;

    open spec fn view(&self) -> FdActionS {
        match self {
            FdAction::OpenRead { path, fd } => FdActionS::OpenRead { path: path@, fd: *fd },
            FdAction::OpenWrite { path, fd } => FdActionS::OpenWrite { path: path@, fd: *fd },
            FdAction::OpenAppend { path, fd } => FdActionS::OpenAppend { path: path@, fd: *fd },
            FdAction::Dup { from_fd, to_fd } => FdActionS::Dup {
                from_fd: *from_fd,
                to_fd: *to_fd,
            },
        }
    }
}

/// The action one redirection resolves to: `< p` opens `p` read-only,
/// `> p` truncating, `>> p` appending, each onto the redirected
/// descriptor; `n>&m` duplicates `m` onto `n`.
pub open spec fn action_of(r: RedirectSpecS) -> FdActionS {
    match r {
        RedirectSpecS::Input { fd, path } => FdActionS::OpenRead { path, fd },
        RedirectSpecS::Output { fd, path } => FdActionS::OpenWrite { path, fd },
        RedirectSpecS::Append { fd, path } => FdActionS::OpenAppend { path, fd },
        RedirectSpecS::FdDup { fd, target } => FdActionS::Dup { from_fd: target, to_fd: fd },
    }
}

/// Resolve a command's redirections, in source order, into descriptor
/// actions. Order is preserved, so a later redirection of the same
/// descriptor overrides an earlier one when the actions are applied in
/// plan order.
pub fn resolve(specs: &Vec<RedirectSpec>) -> (acts: Vec<FdAction>)
    ensures
        acts@.map_values(|a: FdAction| a@) == specs@.map_values(|r: RedirectSpec| r@).map_values(
            |r: RedirectSpecS| action_of(r),
        ),
{
    let mut acts: Vec<FdAction> = Vec::new();
    let mut i: usize = 0;
    proof {
        assert(acts@.map_values(|a: FdAction| a@) =~= specs@.map_values(
            |r: RedirectSpec| r@,
        ).map_values(|r: RedirectSpecS| action_of(r)).subrange(0, 0));
    }
    while i < specs.len()
        invariant
            0 <= i <= specs.len(),
            acts@.map_values(|a: FdAction| a@) == specs@.map_values(
                |r: RedirectSpec| r@,
            ).map_values(|r: RedirectSpecS| action_of(r)).subrange(0, i as int),
        decreases specs.len() - i,
    {
        let act: FdAction = match &specs[i] {
            RedirectSpec::Input { fd, path } => FdAction::OpenRead { path: path.clone(), fd: *fd },
            RedirectSpec::Output { fd, path } => FdAction::OpenWrite {
                path: path.clone(),
                fd: *fd,
            },
            RedirectSpec::Append { fd, path } => FdAction::OpenAppend {
                path: path.clone(),
                fd: *fd,
            },
            RedirectSpec::FdDup { fd, target } => FdAction::Dup { from_fd: *target, to_fd: *fd },
        };
        proof {
            assert(act@ == action_of(specs@.map_values(|r: RedirectSpec| r@)[i as int]));
            assert(acts@.push(act).map_values(|a: FdAction| a@) =~= acts@.map_values(
                |a: FdAction| a@,
            ).push(act@));
            assert(acts@.map_values(|a: FdAction| a@).push(act@) =~= specs@.map_values(
                |r: RedirectSpec| r@,
            ).map_values(|r: RedirectSpecS| action_of(r)).subrange(0, i + 1));
        }
        acts.push(act);
        i = i + 1;
    }
    proof {
        assert(specs@.map_values(|r: RedirectSpec| r@).map_values(|r: RedirectSpecS| action_of(r)).subrange(
            0,
            specs@.len() as int,
        ) =~= specs@.map_values(|r: RedirectSpec| r@).map_values(|r: RedirectSpecS| action_of(r)));
    }
    acts
}

/// What a descriptor refers to once a prefix of the plan has been
/// applied: still the inherited descriptor, or one of the three kinds of
/// opened file.
pub enum FdSourceS {
    Inherited(u32),
    ReadFile(Seq<char>),
    WriteFile(Seq<char>),
    AppendFile(Seq<char>),
}

/// What descriptor `fd` refers to after `acts` have been applied in
/// order, starting from the inherited descriptor table. A dup copies
/// what its source refers to at that moment, so later actions observe
/// earlier ones.
pub open spec fn fd_after(acts: Seq<FdActionS>, fd: u32) -> FdSourceS
    decreases acts.len(),
{
    if acts.len() == 0 {
        FdSourceS::Inherited(fd)
    } else {
        let rest = acts.drop_last();
        match acts.last() {
            FdActionS::OpenRead { path, fd: f } => {
                if f == fd {
                    FdSourceS::ReadFile(path)
                } else {
                    fd_after(rest, fd)
                }
            },
            FdActionS::OpenWrite { path, fd: f } => {
                if f == fd {
                    FdSourceS::WriteFile(path)
                } else {
                    fd_after(rest, fd)
                }
            },
            FdActionS::OpenAppend { path, fd: f } => {
                if f == fd {
                    FdSourceS::AppendFile(path)
                } else {
                    fd_after(rest, fd)
                }
            },
            FdActionS::Dup { from_fd, to_fd } => {
                if to_fd == fd {
                    fd_after(rest, from_fd)
                } else {
                    fd_after(rest, fd)
                }
            },
        }
    }
}

/// Later redirections override earlier ones: after the whole plan, a
/// descriptor refers to whatever the last action touching it says, and a
/// plan that never touches a descriptor leaves it inherited.
pub proof fn lemma_later_action_wins(acts: Seq<FdActionS>, i: int, fd: u32)
    requires
        0 <= i < acts.len(),
        forall|k: int| i < k < acts.len() ==> !action_touches(#[trigger] acts[k], fd),
    ensures
        fd_after(acts, fd) == fd_after(acts.subrange(0, i + 1), fd),
    decreases acts.len(),
{
    if acts.len() > i + 1 {
        assert(!action_touches(acts.last(), fd));
        assert(acts.drop_last() =~= acts.subrange(0, acts.len() - 1));
        assert(forall|k: int|
            i < k < acts.drop_last().len() ==> !action_touches(
                #[trigger] acts.drop_last()[k],
                fd,
            ));
        lemma_later_action_wins(acts.drop_last(), i, fd);
        assert(acts.drop_last().subrange(0, i + 1) =~= acts.subrange(0, i + 1));
    } else {
        assert(acts.subrange(0, i + 1) =~= acts);
    }
}

/// Whether an action changes what descriptor `fd` refers to.
pub open spec fn action_touches(a: FdActionS, fd: u32) -> bool {
    match a {
        FdActionS::OpenRead { fd: f, .. } => f == fd,
        FdActionS::OpenWrite { fd: f, .. } => f == fd,
        FdActionS::OpenAppend { fd: f, .. } => f == fd,
        FdActionS::Dup { to_fd, .. } => to_fd == fd,
    }
}

/// A descriptor no action touches stays inherited.
pub proof fn lemma_untouched_fd_inherited(acts: Seq<FdActionS>, fd: u32)
    requires
        forall|k: int| 0 <= k < acts.len() ==> !action_touches(#[trigger] acts[k], fd),
    ensures
        fd_after(acts, fd) == FdSourceS::Inherited(fd),
    decreases acts.len(),
{
    if acts.len() > 0 {
        assert(!action_touches(acts.last(), fd));
        lemma_untouched_fd_inherited(acts.drop_last(), fd);
    }
}

} // verus!
