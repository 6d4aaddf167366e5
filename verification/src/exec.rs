//! The executor's decision core: which pipelines of a statement run, in
//! what order, and what status the statement reports.
//!
//! Running a pipeline means real OS work — creating pipes, spawning
//! children, waiting — which the surrounding program performs. The logic
//! lives here: [`ListRun`] walks the statement, applying the join
//! operators to the last executed status to decide which pipeline runs
//! next, and [`pipeline_status`] turns the observed stage statuses into
//! the pipeline's own status (the last stage's, or 0 for a background
//! pipeline that nothing waits for). `stage_links` plans the pipe wiring
//! between the stages of one pipeline, and `stage_status` fixes the
//! status a failed stage reports.

use vstd::prelude::*;

use crate::command::CommandList;
use crate::command::JoinOperator;
use crate::command::ListEntryS;
use crate::command::list_wf;

verus! {

/// Whether the join operator written after the previous pipeline lets
/// the next one run, given the last executed status: `;` always, `&&`
/// only on success, `||` only on failure.
pub open spec fn join_allows(j: JoinOperator, status: int) -> bool {
    match j {
        JoinOperator::Sequential => true,
        JoinOperator::AndThen => status == 0,
        JoinOperator::OrElse => status != 0,
        JoinOperator::End => false,
    }
}

/// The last executed status once the first `i` pipelines of the
/// statement have been considered. `oracle[k]` is the status pipeline
/// `k` reports if it runs; a skipped pipeline leaves the status alone.
/// The first pipeline always runs; pipeline `k > 0` runs exactly when
/// the join written after pipeline `k - 1` allows it.
pub open spec fn status_at(entries: Seq<ListEntryS>, oracle: Seq<int>, i: int) -> int
    decreases i,
{
    if i <= 0 {
        0
    } else {
        let prev = status_at(entries, oracle, i - 1);
        if i - 1 == 0 || join_allows(entries[i - 2].join, prev) {
            oracle[i - 1]
        } else {
            prev
        }
    }
}

/// Whether pipeline `i` of the statement runs, given the statuses the
/// running pipelines report.
pub open spec fn runs_at(entries: Seq<ListEntryS>, oracle: Seq<int>, i: int) -> bool {
    i == 0 || join_allows(entries[i - 1].join, status_at(entries, oracle, i))
}

/// The status the whole statement reports: the last executed pipeline's
/// status, or 0 if nothing ran.
pub open spec fn list_status(entries: Seq<ListEntryS>, oracle: Seq<int>) -> int {
    status_at(entries, oracle, entries.len() as int)
}

/// `status_at` reads only the oracle entries before `i`.
proof fn lemma_status_at_agree(entries: Seq<ListEntryS>, o1: Seq<int>, o2: Seq<int>, i: int)
    requires
        forall|k: int| 0 <= k < i ==> o1[k] == o2[k],
    ensures
        status_at(entries, o1, i) == status_at(entries, o2, i),
    decreases i,
{
    if i > 0 {
        lemma_status_at_agree(entries, o1, o2, i - 1);
    }
}

/// A statement in execution. The surrounding program drives it: ask
/// [`ListRun::next_to_run`] which pipeline runs next, run that pipeline,
/// hand the observed status to [`ListRun::report`], and read the final
/// status from [`ListRun::finish`]. The ghost `reported` sequence holds
/// one status per pipeline already considered (0 for skipped ones, whose
/// value is never read), tying the concrete state to `status_at`.
pub struct ListRun {
    pub list: CommandList,
    pub next: usize,
    pub status: i32,
    pub reported: Ghost<Seq<int>>,
}

impl ListRun {
    pub open spec fn entries(self) -> Seq<ListEntryS> {
        self.list@
    }

    pub open spec fn inv(self) -> bool {
        &&& list_wf(self.entries())
        &&& self.next <= self.entries().len()
        &&& self.reported@.len() == self.next
        &&& self.status as int == status_at(self.entries(), self.reported@, self.next as int)
    }

    pub fn new(list: CommandList) -> (r: ListRun)
        requires
            list_wf(list@),
        ensures
            r.inv(),
            r.list == list,
            r.next == 0,
            r.status == 0,
    {
        ListRun { list, next: 0, status: 0, reported: Ghost(Seq::empty()) }
    }

    /// Skip the pipelines whose join operators rule them out (their
    /// status is never consulted and never changes the last executed
    /// status) and return the index of the next pipeline that must run,
    /// or `None` when the statement is finished. Every pipeline passed
    /// over is one that `runs_at` rules out — the join operators alone
    /// decide, so a pipeline that must run is never skipped — and the
    /// statuses already reported are untouched.
    pub fn next_to_run(&mut self) -> (r: Option<usize>)
        requires
            old(self).inv(),
            old(self).next <= old(self).list@.len(),
        ensures
            final(self).inv(),
            final(self).list == old(self).list,
            final(self).status == old(self).status,
            old(self).next <= final(self).next,
            forall|j: int|
                0 <= j < old(self).next ==> final(self).reported@[j] == old(self).reported@[j],
            forall|j: int|
                old(self).next <= j < final(self).next ==> !runs_at(
                    final(self).entries(),
                    final(self).reported@,
                    j,
                ),
            r matches Some(k) ==> k == final(self).next && k < final(self).entries().len()
                && runs_at(final(self).entries(), final(self).reported@, k as int),
            r is None ==> final(self).next == final(self).entries().len(),
    {
        loop
            invariant
                self.inv(),
                self.list == old(self).list,
                self.status == old(self).status,
                old(self).next <= self.next,
                forall|j: int|
                    0 <= j < old(self).next ==> self.reported@[j] == old(self).reported@[j],
                forall|j: int|
                    old(self).next <= j < self.next ==> !runs_at(
                        self.entries(),
                        self.reported@,
                        j,
                    ),
            decreases self.entries().len() - self.next,
        {
            if self.next >= self.list.entries.len() {
                return None;
            }
            let k = self.next;
            let allowed: bool = if k == 0 {
                true
            } else {
                proof {
                    assert(self.entries()[k - 1] == self.list.entries@[k - 1]@);
                }
                join_allows_exec(&self.list.entries[k - 1].join, self.status)
            };
            if allowed {
                return Some(k);
            }
            proof {
                let ghost es = self.entries();
                let ghost o1 = self.reported@;
                let ghost o2 = self.reported@.push(0);
                lemma_status_at_agree(es, o1, o2, k as int);
                assert(status_at(es, o2, k + 1) == status_at(es, o2, k as int));
                assert forall|j: int| old(self).next <= j < k + 1 implies !runs_at(
                    es,
                    o2,
                    j,
                ) by {
                    lemma_status_at_agree(es, o1, o2, j);
                    if j < k {
                        assert(!runs_at(es, o1, j));
                    } else {
                        assert(j == k && k >= 1);
                        assert(self.status as int == status_at(es, o1, k as int));
                        assert(!join_allows(es[k - 1].join, status_at(es, o2, k as int)));
                    }
                }
            }
            self.reported = Ghost(self.reported@.push(0));
            self.next = k + 1;
        }
    }

    /// Record the status the pipeline at `next` reported after running.
    pub fn report(&mut self, s: i32)
        requires
            old(self).inv(),
            old(self).next < old(self).entries().len(),
            runs_at(old(self).entries(), old(self).reported@, old(self).next as int),
        ensures
            final(self).inv(),
            final(self).list == old(self).list,
            final(self).next == old(self).next + 1,
            final(self).status == s,
            final(self).reported@ == old(self).reported@.push(s as int),
    {
        let n = self.list.entries.len();
        proof {
            let ghost es = self.entries();
            let ghost o1 = self.reported@;
            let ghost o2 = self.reported@.push(s as int);
            lemma_status_at_agree(es, o1, o2, self.next as int);
            assert(self.entries().len() == n);
        }
        self.reported = Ghost(self.reported@.push(s as int));
        self.next = self.next + 1;
        self.status = s;
    }

    /// The status of the whole statement, once every pipeline has been
    /// considered: the last executed pipeline's status, 0 if nothing ran.
    pub fn finish(&self) -> (s: i32)
        requires
            self.inv(),
            self.next == self.entries().len(),
        ensures
            s as int == list_status(self.entries(), self.reported@),
    {
        self.status
    }
}

/// Executable form of [`join_allows`].
pub fn join_allows_exec(j: &JoinOperator, status: i32) -> (b: bool)
    ensures
        b == join_allows(*j, status as int),
{
    match j {
        JoinOperator::Sequential => true,
        JoinOperator::AndThen => status == 0,
        JoinOperator::OrElse => status != 0,
        JoinOperator::End => false,
    }
}

/// After `a && b`, `b` is skipped when `a` failed, and the failure
/// status is what the statement carries forward.
pub proof fn lemma_and_then_short_circuits(entries: Seq<ListEntryS>, oracle: Seq<int>, i: int)
    requires
        1 <= i < entries.len(),
        entries[i - 1].join == JoinOperator::AndThen,
        status_at(entries, oracle, i) != 0,
    ensures
        !runs_at(entries, oracle, i),
        status_at(entries, oracle, i + 1) == status_at(entries, oracle, i),
{
}

/// After `a && b`, `b` runs when `a` succeeded, and reports its own
/// status.
pub proof fn lemma_and_then_runs(entries: Seq<ListEntryS>, oracle: Seq<int>, i: int)
    requires
        1 <= i < entries.len(),
        entries[i - 1].join == JoinOperator::AndThen,
        status_at(entries, oracle, i) == 0,
    ensures
        runs_at(entries, oracle, i),
        status_at(entries, oracle, i + 1) == oracle[i],
{
}

/// After `a || b`, `b` runs exactly when `a` failed; if it runs it
/// reports its own status, otherwise `a`'s success carries forward.
pub proof fn lemma_or_else_runs_on_failure(entries: Seq<ListEntryS>, oracle: Seq<int>, i: int)
    requires
        1 <= i < entries.len(),
        entries[i - 1].join == JoinOperator::OrElse,
    ensures
        runs_at(entries, oracle, i) <==> status_at(entries, oracle, i) != 0,
        runs_at(entries, oracle, i) ==> status_at(entries, oracle, i + 1) == oracle[i],
        !runs_at(entries, oracle, i) ==> status_at(entries, oracle, i + 1) == 0,
{
}

/// After `a ; b`, `b` always runs.
pub proof fn lemma_sequential_always_runs(entries: Seq<ListEntryS>, oracle: Seq<int>, i: int)
    requires
        1 <= i < entries.len(),
        entries[i - 1].join == JoinOperator::Sequential,
    ensures
        runs_at(entries, oracle, i),
        status_at(entries, oracle, i + 1) == oracle[i],
{
}

/// The status a pipeline reports. A background pipeline is not waited
/// for and reports success immediately; a foreground pipeline reports
/// the exit status of its **last** stage, whatever the earlier stages
/// exited with.
pub fn pipeline_status(background: bool, stage_statuses: &Vec<i32>) -> (s: i32)
    requires
        background || stage_statuses@.len() > 0,
    ensures
        background ==> s == 0,
        !background ==> s == stage_statuses@.last(),
{
    if background {
        0
    } else {
        stage_statuses[stage_statuses.len() - 1]
    }
}

/// How one stage of a pipeline is wired: the index of the pipe whose
/// read end becomes its standard input, and of the pipe whose write end
/// takes its standard output. `None` leaves the inherited descriptor
/// (or the command's own redirections) in place.
#[derive(Clone, Copy, PartialEq, Eq, Structural, Debug)]
pub struct StageLink {
    pub stdin_pipe: Option<usize>,
    pub stdout_pipe: Option<usize>,
}

/// Plan the pipe wiring for a pipeline of `n_stages` commands, which
/// needs `n_stages - 1` anonymous pipes: stage `i` writes pipe `i` and
/// reads pipe `i - 1`, so each stage's output feeds the next stage's
/// input; the first stage reads and the last writes the inherited
/// descriptors.
pub fn stage_links(n_stages: usize) -> (links: Vec<StageLink>)
    requires
        n_stages > 0,
    ensures
        links@.len() == n_stages,
        forall|i: int|
            0 <= i < n_stages ==> (#[trigger] links@[i]).stdin_pipe == (if i == 0 {
                Option::<usize>::None
            } else {
                Option::Some((i - 1) as usize)
            }),
        forall|i: int|
            0 <= i < n_stages ==> (#[trigger] links@[i]).stdout_pipe == (if i == n_stages - 1 {
                Option::<usize>::None
            } else {
                Option::Some(i as usize)
            }),
{
    let mut links: Vec<StageLink> = Vec::new();
    let mut i: usize = 0;
    while i < n_stages
        invariant
            0 <= i <= n_stages,
            links@.len() == i,
            forall|k: int|
                0 <= k < i ==> (#[trigger] links@[k]).stdin_pipe == (if k == 0 {
                    Option::<usize>::None
                } else {
                    Option::Some((k - 1) as usize)
                }),
            forall|k: int|
                0 <= k < i ==> (#[trigger] links@[k]).stdout_pipe == (if k == n_stages - 1 {
                    Option::<usize>::None
                } else {
                    Option::Some(k as usize)
                }),
        decreases n_stages - i,
    {
        let stdin_pipe: Option<usize> = if i == 0 {
            None
        } else {
            Some(i - 1)
        };
        let stdout_pipe: Option<usize> = if i == n_stages - 1 {
            None
        } else {
            Some(i)
        };
        links.push(StageLink { stdin_pipe, stdout_pipe });
        i = i + 1;
    }
    links
}

/// How one stage of a pipeline ended before or after its child process
/// ran: it exited with a status, it could not be spawned, or one of its
/// redirections could not be opened (in which case it was never
/// spawned).
#[derive(Clone, Copy, PartialEq, Eq, Structural, Debug)]
pub enum StageOutcome {
    Exited(i32),
    SpawnNotFound,
    SpawnPermissionDenied,
    SpawnFailed,
    RedirectFailed,
}

/// The status one stage contributes. Every failure short of the child's
/// own exit yields a conventional nonzero status: 127 for a program
/// that was not found, 126 for one that could not be executed, 1 for a
/// redirection that could not be opened.
pub open spec fn stage_status_of(o: StageOutcome) -> int {
    match o {
        StageOutcome::Exited(c) => c as int,
        StageOutcome::SpawnNotFound => 127,
        StageOutcome::SpawnPermissionDenied => 126,
        StageOutcome::SpawnFailed => 126,
        StageOutcome::RedirectFailed => 1,
    }
}

/// Executable form of [`stage_status_of`]. A stage that did not exit on
/// its own never reports success.
pub fn stage_status(o: &StageOutcome) -> (s: i32)
    ensures
        s as int == stage_status_of(*o),
        !(o is Exited) ==> s != 0,
{
    match o {
        StageOutcome::Exited(c) => *c,
        StageOutcome::SpawnNotFound => 127,
        StageOutcome::SpawnPermissionDenied => 126,
        StageOutcome::SpawnFailed => 126,
        StageOutcome::RedirectFailed => 1,
    }
}

} // verus!
