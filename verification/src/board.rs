//! The board: the jobs exchanged with one peer, each under its identifier
//! and at its newest version, with those waiting for a job to end and the
//! jobs held back while the peer is away.

use vstd::prelude::*;
use crate::job::{Job, JobView};

verus! {

/// What can go wrong on a board.
#[derive(Debug, PartialEq, Eq)]
pub enum Error {
    /// A newer version of the job is already on the board.
    OutOfOrder(String),
    /// No job of that identifier is on the board.
    NotFound(String),
    /// The job on the board has ended, or no waiter can be issued.
    InvalidState(String),
}

impl Error {
    /// The message the error carries.
    pub fn message(&self) -> (r: &str)
        ensures
            r@ == self.text(),
    {
        match self {
            Error::OutOfOrder(m) => m.as_str(),
            Error::NotFound(m) => m.as_str(),
            Error::InvalidState(m) => m.as_str(),
        }
    }

    /// The message as a sequence of characters.
    pub open spec fn text(&self) -> Seq<char> {
        match self {
            Error::OutOfOrder(m) => m@,
            Error::NotFound(m) => m@,
            Error::InvalidState(m) => m@,
        }
    }
}

/// What a board makes of a job that is offered to it.
pub enum Verdict {
    /// The job is new to the board, or newer than the one held, which has
    /// not ended: it is taken.
    Accept,
    /// The job has the version of the one held: nothing changes.
    Replay,
    /// The job is older than the one held: it is refused.
    OutOfOrder,
    /// The job is newer than the one held, but that one has ended: it is
    /// refused.
    Ended,
}

/// The rule by which a board judges a job.
pub open spec fn verdict(jobs: Map<u128, JobView>, job: JobView) -> Verdict {
    if !jobs.dom().contains(job.id) {
        Verdict::Accept
    } else if job.version == jobs[job.id].version {
        Verdict::Replay
    } else if job.version < jobs[job.id].version {
        Verdict::OutOfOrder
    } else if jobs[job.id].state.terminal() {
        Verdict::Ended
    } else {
        Verdict::Accept
    }
}

/// The tokens of those in `waiters` that wait for `id`, in the order in
/// which they came.
pub open spec fn tokens_for(waiters: Seq<(u128, u64)>, id: u128) -> Seq<u64>
    decreases waiters.len(),
{
    if waiters.len() == 0 {
        Seq::empty()
    } else if waiters.last().0 == id {
        tokens_for(waiters.drop_last(), id).push(waiters.last().1)
    } else {
        tokens_for(waiters.drop_last(), id)
    }
}

/// Those in `waiters` that wait for another job than `id`.
pub open spec fn waiters_except(waiters: Seq<(u128, u64)>, id: u128) -> Seq<(u128, u64)>
    decreases waiters.len(),
{
    if waiters.len() == 0 {
        Seq::empty()
    } else if waiters.last().0 == id {
        waiters_except(waiters.drop_last(), id)
    } else {
        waiters_except(waiters.drop_last(), id).push(waiters.last())
    }
}

/// `waiters` without the one that holds `token`.
pub open spec fn waiters_without(waiters: Seq<(u128, u64)>, token: u64) -> Seq<(u128, u64)>
    decreases waiters.len(),
{
    if waiters.len() == 0 {
        Seq::empty()
    } else if waiters.last().1 == token {
        waiters_without(waiters.drop_last(), token)
    } else {
        waiters_without(waiters.drop_last(), token).push(waiters.last())
    }
}

/// Whether one of `waiters` holds `token`.
pub open spec fn holds_token(waiters: Seq<(u128, u64)>, token: u64) -> bool {
    exists|k: int| 0 <= k < waiters.len() && (#[trigger] waiters[k]).1 == token
}

/// Jobs in the strict order of their identifiers.
pub open spec fn sorted(jobs: Seq<JobView>) -> bool {
    forall|i: int, j: int| 0 <= i < j < jobs.len() ==> jobs[i].id < jobs[j].id
}

/// `snapshot` lists the jobs of `jobs`, each once, in the order of their
/// identifiers.
pub open spec fn is_snapshot(snapshot: Seq<JobView>, jobs: Map<u128, JobView>) -> bool {
    &&& sorted(snapshot)
    &&& forall|i: int|
        0 <= i < snapshot.len() ==> jobs.contains_pair((#[trigger] snapshot[i]).id, snapshot[i])
    &&& forall|id: u128|
        jobs.dom().contains(id) ==> exists|i: int|
            0 <= i < snapshot.len() && (#[trigger] snapshot[i]).id == id
}

/// A board as a value: what the contracts speak of.
pub struct BoardView {
    /// The jobs, each under its identifier.
    pub jobs: Map<u128, JobView>,
    /// Who waits for which job to end: identifier and token, in the order of
    /// arrival.
    pub waiters: Seq<(u128, u64)>,
    /// The token that the next waiter gets.
    pub next_token: u64,
    /// The jobs held back for the peer, in the order in which they are due.
    pub queued: Seq<JobView>,
}

impl BoardView {
    /// What holds of every board: a job stands under its own identifier and
    /// is a job; no token has been handed out twice; and nobody waits for a
    /// job that has ended.
    pub open spec fn wf(self) -> bool {
        &&& forall|id: u128| #[trigger]
            self.jobs.dom().contains(id) ==> self.jobs[id].id == id && self.jobs[id].wf()
        &&& forall|k: int|
            0 <= k < self.waiters.len() ==> (#[trigger] self.waiters[k]).1 < self.next_token
        &&& forall|k: int, l: int|
            0 <= k < l < self.waiters.len() ==> (#[trigger] self.waiters[k]).1 != (
            #[trigger] self.waiters[l]).1
        &&& forall|k: int|
            0 <= k < self.waiters.len() && self.jobs.dom().contains((#[trigger] self.waiters[k]).0)
                ==> !self.jobs[self.waiters[k].0].state.terminal()
        &&& forall|k: int| 0 <= k < self.queued.len() ==> (#[trigger] self.queued[k]).wf()
    }

    /// The board after `job` was offered to it. A job that is taken stands
    /// under its identifier; if it has ended, those who waited for it leave.
    /// A job that is not taken changes nothing.
    pub open spec fn added(self, job: JobView) -> BoardView {
        if verdict(self.jobs, job) is Accept {
            BoardView {
                jobs: self.jobs.insert(job.id, job),
                waiters: if job.state.terminal() {
                    waiters_except(self.waiters, job.id)
                } else {
                    self.waiters
                },
                ..self
            }
        } else {
            self
        }
    }

    /// The tokens of the waiters that `job` releases when it is offered:
    /// those waiting for it, if it is taken and has ended.
    pub open spec fn released(self, job: JobView) -> Seq<u64> {
        if verdict(self.jobs, job) is Accept && job.state.terminal() {
            tokens_for(self.waiters, job.id)
        } else {
            Seq::empty()
        }
    }

    /// The board without the job of identifier `id`.
    pub open spec fn removed(self, id: u128) -> BoardView {
        BoardView { jobs: self.jobs.remove(id), ..self }
    }

    /// Whether the job of identifier `id` is on the board and has ended.
    pub open spec fn has_ended(self, id: u128) -> bool {
        self.jobs.dom().contains(id) && self.jobs[id].state.terminal()
    }

    /// The board with one more waiter for `id`, who holds the next token.
    pub open spec fn awaited(self, id: u128) -> BoardView {
        BoardView {
            waiters: self.waiters.push((id, self.next_token)),
            next_token: (self.next_token + 1) as u64,
            ..self
        }
    }

    /// Whether `job`, offered to the board, is refused.
    pub open spec fn refuses(self, job: JobView) -> bool {
        verdict(self.jobs, job) is OutOfOrder || verdict(self.jobs, job) is Ended
    }

    /// The board after `job` was put on it for the peer: the job is offered
    /// to the board, and unless it is refused or the peer is connected it
    /// is held back behind those already held.
    pub open spec fn posted(self, job: JobView, connected: bool) -> BoardView {
        if self.refuses(job) || connected {
            self.added(job)
        } else {
            BoardView { queued: self.queued.push(job), ..self.added(job) }
        }
    }

    /// The board after the peer has come back: nothing is held back any
    /// more.
    pub open spec fn resumed(self) -> BoardView {
        BoardView { queued: Seq::empty(), ..self }
    }

    /// The board after each job of `snapshot` was offered to it in turn.
    pub open spec fn synced(self, snapshot: Seq<JobView>) -> BoardView
        decreases snapshot.len(),
    {
        if snapshot.len() == 0 {
            self
        } else {
            self.synced(snapshot.drop_last()).added(snapshot.last())
        }
    }

    /// The tokens released while each job of `snapshot` is offered in turn.
    pub open spec fn sync_released(self, snapshot: Seq<JobView>) -> Seq<u64>
        decreases snapshot.len(),
    {
        if snapshot.len() == 0 {
            Seq::empty()
        } else {
            self.sync_released(snapshot.drop_last()) + self.synced(
                snapshot.drop_last(),
            ).released(snapshot.last())
        }
    }
}

/// From `before` to `after` no job was lost, and each either stayed as it
/// was or, not having ended, gave way to a higher version.
pub open spec fn grows_to(before: Map<u128, JobView>, after: Map<u128, JobView>) -> bool {
    forall|id: u128| #[trigger]
        before.dom().contains(id) ==> after.dom().contains(id) && (after[id] == before[id] || (
        after[id].version > before[id].version && !before[id].state.terminal()))
}

/// Two boards tell one story of the jobs they share: at one version a job is
/// one job, and no version follows the one at which it ended.
pub open spec fn coherent(a: Map<u128, JobView>, b: Map<u128, JobView>) -> bool {
    forall|id: u128|
        #![trigger a.dom().contains(id), b.dom().contains(id)]
        a.dom().contains(id) && b.dom().contains(id) ==> {
            &&& a[id].version == b[id].version ==> a[id] == b[id]
            &&& a[id].state.terminal() ==> b[id].version <= a[id].version
            &&& b[id].state.terminal() ==> a[id].version <= b[id].version
        }
}

/// Those who stay are those who waited for another job, in the order in
/// which they stood.
pub proof fn lemma_waiters_except(waiters: Seq<(u128, u64)>, id: u128)
    ensures
        forall|k: int|
            0 <= k < waiters_except(waiters, id).len() ==> (#[trigger] waiters_except(
                waiters,
                id,
            )[k]).0 != id && waiters.contains(waiters_except(waiters, id)[k]),
        forall|k: int, l: int|
            0 <= k < l < waiters_except(waiters, id).len() ==> exists|m: int, n: int|
                0 <= m < n < waiters.len() && waiters[m] == #[trigger] waiters_except(
                    waiters,
                    id,
                )[k] && waiters[n] == #[trigger] waiters_except(waiters, id)[l],
    decreases waiters.len(),
{
    let r = waiters_except(waiters, id);
    if waiters.len() > 0 {
        let init = waiters.drop_last();
        let ri = waiters_except(init, id);
        lemma_waiters_except(init, id);
        assert forall|k: int| 0 <= k < r.len() implies (#[trigger] r[k]).0 != id
            && waiters.contains(r[k]) by {
            if k < ri.len() {
                assert(r[k] == ri[k]);
                let m = choose|m: int| 0 <= m < init.len() && init[m] == ri[k];
                assert(waiters[m] == r[k]);
            } else {
                assert(waiters[waiters.len() - 1] == r[k]);
            }
        }
        assert forall|k: int, l: int| 0 <= k < l < r.len() implies exists|m: int, n: int|
            0 <= m < n < waiters.len() && waiters[m] == #[trigger] r[k] && waiters[n]
                == #[trigger] r[l] by {
            if l < ri.len() {
                assert(r[k] == ri[k] && r[l] == ri[l]);
                let (m, n) = choose|m: int, n: int|
                    0 <= m < n < init.len() && init[m] == ri[k] && init[n] == ri[l];
                assert(waiters[m] == r[k] && waiters[n] == r[l]);
            } else {
                assert(r[k] == ri[k]);
                assert(init.contains(ri[k]));
                let m = choose|m: int| 0 <= m < init.len() && init[m] == ri[k];
                assert(waiters[m] == r[k] && waiters[waiters.len() - 1] == r[l]);
            }
        }
    }
}

/// Those who stay are those who hold another token, in the order in which
/// they stood.
pub proof fn lemma_waiters_without(waiters: Seq<(u128, u64)>, token: u64)
    ensures
        forall|k: int|
            0 <= k < waiters_without(waiters, token).len() ==> (#[trigger] waiters_without(
                waiters,
                token,
            )[k]).1 != token && waiters.contains(waiters_without(waiters, token)[k]),
        forall|k: int, l: int|
            0 <= k < l < waiters_without(waiters, token).len() ==> exists|m: int, n: int|
                0 <= m < n < waiters.len() && waiters[m] == #[trigger] waiters_without(
                    waiters,
                    token,
                )[k] && waiters[n] == #[trigger] waiters_without(waiters, token)[l],
    decreases waiters.len(),
{
    let r = waiters_without(waiters, token);
    if waiters.len() > 0 {
        let init = waiters.drop_last();
        let ri = waiters_without(init, token);
        lemma_waiters_without(init, token);
        assert forall|k: int| 0 <= k < r.len() implies (#[trigger] r[k]).1 != token
            && waiters.contains(r[k]) by {
            if k < ri.len() {
                assert(r[k] == ri[k]);
                let m = choose|m: int| 0 <= m < init.len() && init[m] == ri[k];
                assert(waiters[m] == r[k]);
            } else {
                assert(waiters[waiters.len() - 1] == r[k]);
            }
        }
        assert forall|k: int, l: int| 0 <= k < l < r.len() implies exists|m: int, n: int|
            0 <= m < n < waiters.len() && waiters[m] == #[trigger] r[k] && waiters[n]
                == #[trigger] r[l] by {
            if l < ri.len() {
                assert(r[k] == ri[k] && r[l] == ri[l]);
                let (m, n) = choose|m: int, n: int|
                    0 <= m < n < init.len() && init[m] == ri[k] && init[n] == ri[l];
                assert(waiters[m] == r[k] && waiters[n] == r[l]);
            } else {
                assert(r[k] == ri[k]);
                assert(init.contains(ri[k]));
                let m = choose|m: int| 0 <= m < init.len() && init[m] == ri[k];
                assert(waiters[m] == r[k] && waiters[waiters.len() - 1] == r[l]);
            }
        }
    }
}

/// Where nobody holds `token`, taking its holder away changes nothing.
pub proof fn law_absent_token_changes_nothing(waiters: Seq<(u128, u64)>, token: u64)
    requires
        !holds_token(waiters, token),
    ensures
        waiters_without(waiters, token) == waiters,
    decreases waiters.len(),
{
    if waiters.len() > 0 {
        let init = waiters.drop_last();
        assert(waiters[waiters.len() - 1].1 != token);
        assert forall|k: int| 0 <= k < init.len() implies (#[trigger] init[k]).1 != token by {
            assert(waiters[k].1 != token);
        }
        law_absent_token_changes_nothing(init, token);
        assert(waiters_without(waiters, token) =~= waiters);
    }
}

/// A board that takes a job stays a board.
pub proof fn law_added_wf(board: BoardView, job: JobView)
    requires
        board.wf(),
        job.wf(),
    ensures
        board.added(job).wf(),
{
    let after = board.added(job);
    if verdict(board.jobs, job) is Accept {
        assert forall|id: u128| #[trigger] after.jobs.dom().contains(id) implies after.jobs[id].id
            == id && after.jobs[id].wf() by {
            if id != job.id {
                assert(board.jobs.dom().contains(id));
            }
        }
        if job.state.terminal() {
            lemma_waiters_except(board.waiters, job.id);
            assert forall|k: int| 0 <= k < after.waiters.len() implies (
            #[trigger] after.waiters[k]).1 < after.next_token && (after.jobs.dom().contains(
                after.waiters[k].0,
            ) ==> !after.jobs[after.waiters[k].0].state.terminal()) by {
                let w = after.waiters[k];
                assert(board.waiters.contains(w));
                let m = choose|m: int| 0 <= m < board.waiters.len() && board.waiters[m] == w;
                assert(board.waiters[m].1 < board.next_token);
            }
            assert forall|k: int, l: int| 0 <= k < l < after.waiters.len() implies (
            #[trigger] after.waiters[k]).1 != (#[trigger] after.waiters[l]).1 by {
                let (m, n) = choose|m: int, n: int|
                    0 <= m < n < board.waiters.len() && board.waiters[m] == after.waiters[k]
                        && board.waiters[n] == after.waiters[l];
                assert(board.waiters[m].1 != board.waiters[n].1);
            }
        } else {
            assert forall|k: int|
                0 <= k < after.waiters.len() && after.jobs.dom().contains(
                    (#[trigger] after.waiters[k]).0,
                ) implies !after.jobs[after.waiters[k].0].state.terminal() by {
                if after.waiters[k].0 != job.id {
                    assert(board.jobs.dom().contains(board.waiters[k].0));
                }
            }
        }
    }
}

/// On a board, a job only ever gives way to a higher version of itself, and
/// a job that has ended gives way to none.
pub proof fn law_add_grows(board: BoardView, job: JobView)
    ensures
        grows_to(board.jobs, board.added(job).jobs),
{
}

/// What holds from one board to the next holds along any run of boards.
pub proof fn law_grows_transitive(
    a: Map<u128, JobView>,
    b: Map<u128, JobView>,
    c: Map<u128, JobView>,
)
    requires
        grows_to(a, b),
        grows_to(b, c),
    ensures
        grows_to(a, c),
{
    assert forall|id: u128| #[trigger] a.dom().contains(id) implies c.dom().contains(id) && (c[id]
        == a[id] || (c[id].version > a[id].version && !a[id].state.terminal())) by {
        assert(b.dom().contains(id));
    }
}

/// Taking in a snapshot keeps a board a board, loses no job, and moves each
/// job only to a higher version, and not at all once it has ended.
pub proof fn law_sync_grows(board: BoardView, snapshot: Seq<JobView>)
    requires
        board.wf(),
        forall|i: int| 0 <= i < snapshot.len() ==> (#[trigger] snapshot[i]).wf(),
    ensures
        board.synced(snapshot).wf(),
        grows_to(board.jobs, board.synced(snapshot).jobs),
    decreases snapshot.len(),
{
    if snapshot.len() > 0 {
        let init = snapshot.drop_last();
        assert forall|i: int| 0 <= i < init.len() implies (#[trigger] init[i]).wf() by {
            assert(init[i] == snapshot[i]);
        }
        law_sync_grows(board, init);
        let mid = board.synced(init);
        law_added_wf(mid, snapshot.last());
        law_add_grows(mid, snapshot.last());
        law_grows_transitive(board.jobs, mid.jobs, mid.added(snapshot.last()).jobs);
    }
}

/// A job put on the board while the peer is away is not lost: unless the
/// board refuses it, it is the last of those held back, and it is among
/// what is sent when the peer comes back.
pub proof fn law_held_back_is_replayed(board: BoardView, job: JobView)
    requires
        !board.refuses(job),
    ensures
        board.posted(job, false).queued == board.queued.push(job),
        board.posted(job, false).queued.last() == job,
        board.posted(job, false).jobs.dom().contains(job.id),
        board.posted(job, false).resumed().queued.len() == 0,
{
}

/// Nobody is released by a job that has not ended, nor by one that the
/// board does not take.
pub proof fn law_released_only_by_ended(board: BoardView, job: JobView)
    ensures
        board.released(job).len() > 0 ==> job.state.terminal() && verdict(board.jobs, job)
            is Accept,
{
}

/// A job that is offered twice changes the board once.
pub proof fn law_replay_changes_nothing(board: BoardView, job: JobView)
    requires
        board.wf(),
    ensures
        board.added(job).added(job) == board.added(job),
        board.added(job).released(job) == Seq::<u64>::empty(),
{
}

/// What a board that held `held` holds under `id` after taking in the jobs
/// `offered`, one of each identifier: the offered job where the board takes
/// it, else what it held.
pub open spec fn merged_at(
    held: Map<u128, JobView>,
    offered: Map<u128, JobView>,
    after: Map<u128, JobView>,
    id: u128,
) -> bool {
    if offered.dom().contains(id) && verdict(held, offered[id]) is Accept {
        after.contains_pair(id, offered[id])
    } else {
        after.dom().contains(id) == held.dom().contains(id) && (after.dom().contains(id)
            ==> after[id] == held[id])
    }
}

proof fn lemma_synced_job(jobs: Map<u128, JobView>, board: BoardView, snapshot: Seq<JobView>)
    requires
        is_snapshot(snapshot, jobs),
        forall|id: u128| #[trigger] jobs.dom().contains(id) ==> jobs[id].id == id,
    ensures
        forall|id: u128| #[trigger] merged_at(board.jobs, jobs, board.synced(snapshot).jobs, id),
    decreases snapshot.len(),
{
    let after = board.synced(snapshot).jobs;
    if snapshot.len() == 0 {
        assert forall|id: u128| #[trigger] merged_at(board.jobs, jobs, after, id) by {
            if jobs.dom().contains(id) {
                let i = choose|i: int| 0 <= i < snapshot.len() && (#[trigger] snapshot[i]).id == id;
            }
        }
    } else {
        let init = snapshot.drop_last();
        let last = snapshot.last();
        let rest = jobs.remove(last.id);
        assert(jobs.contains_pair(snapshot[snapshot.len() - 1].id, last));
        assert(is_snapshot(init, rest)) by {
            assert forall|i: int| 0 <= i < init.len() implies rest.contains_pair(
                (#[trigger] init[i]).id,
                init[i],
            ) by {
                assert(init[i] == snapshot[i]);
                assert(snapshot[i].id < snapshot[snapshot.len() - 1].id);
                assert(jobs.contains_pair(snapshot[i].id, snapshot[i]));
            }
            assert forall|id: u128| rest.dom().contains(id) implies exists|i: int|
                0 <= i < init.len() && (#[trigger] init[i]).id == id by {
                assert(jobs.dom().contains(id));
                let i = choose|i: int| 0 <= i < snapshot.len() && (#[trigger] snapshot[i]).id == id;
                assert(init[i] == snapshot[i]);
            }
        }
        assert forall|id: u128| #[trigger] rest.dom().contains(id) implies rest[id].id == id by {
            assert(jobs.dom().contains(id));
        }
        lemma_synced_job(rest, board, init);
        let mid = board.synced(init).jobs;
        assert(after == board.synced(init).added(last).jobs);
        assert forall|id: u128| #[trigger] merged_at(board.jobs, jobs, after, id) by {
            assert(merged_at(board.jobs, rest, mid, id));
            if id == last.id {
                assert(!rest.dom().contains(id));
                assert(jobs[id] == last);
            } else {
                assert(rest.dom().contains(id) == jobs.dom().contains(id));
                assert(after.dom().contains(id) == mid.dom().contains(id));
                if jobs.dom().contains(id) {
                    assert(rest[id] == jobs[id]);
                }
            }
        }
    }
}

/// Two boards that tell one story hold the same jobs once each has taken in
/// the other's snapshot.
pub proof fn law_sync_converges(
    a: BoardView,
    b: BoardView,
    of_a: Seq<JobView>,
    of_b: Seq<JobView>,
)
    requires
        a.wf(),
        b.wf(),
        is_snapshot(of_a, a.jobs),
        is_snapshot(of_b, b.jobs),
        coherent(a.jobs, b.jobs),
    ensures
        a.synced(of_b).jobs == b.synced(of_a).jobs,
{
    lemma_synced_job(b.jobs, a, of_b);
    lemma_synced_job(a.jobs, b, of_a);
    let x = a.synced(of_b).jobs;
    let y = b.synced(of_a).jobs;
    assert forall|id: u128|
        #![trigger x.dom().contains(id)]
        #![trigger y.dom().contains(id)]
        x.dom().contains(id) == y.dom().contains(id) && (x.dom().contains(id) ==> x[id]
            == y[id]) by {
        assert(merged_at(a.jobs, b.jobs, x, id));
        assert(merged_at(b.jobs, a.jobs, y, id));
        let in_a = a.jobs.dom().contains(id);
        let in_b = b.jobs.dom().contains(id);
        if in_a {
            assert(a.jobs[id].id == id);
        }
        if in_b {
            assert(b.jobs[id].id == id);
        }
    }
    assert(x =~= y);
}

/// Who waited for another job still waits once those of a job have left.
pub proof fn lemma_others_still_wait(waiters: Seq<(u128, u64)>, id: u128, waiter: (u128, u64))
    requires
        waiters.contains(waiter),
        waiter.0 != id,
    ensures
        waiters_except(waiters, id).contains(waiter),
    decreases waiters.len(),
{
    let r = waiters_except(waiters, id);
    let init = waiters.drop_last();
    if waiters.last() == waiter {
        assert(r[r.len() - 1] == waiter);
    } else {
        let k = choose|k: int| 0 <= k < waiters.len() && waiters[k] == waiter;
        assert(init[k] == waiter);
        lemma_others_still_wait(init, id, waiter);
        let ri = waiters_except(init, id);
        let m = choose|m: int| 0 <= m < ri.len() && ri[m] == waiter;
        assert(r[m] == waiter);
    }
}

/// The token of who waits for a job is among the tokens for that job.
pub proof fn lemma_token_is_for(waiters: Seq<(u128, u64)>, waiter: (u128, u64))
    requires
        waiters.contains(waiter),
    ensures
        tokens_for(waiters, waiter.0).contains(waiter.1),
    decreases waiters.len(),
{
    let r = tokens_for(waiters, waiter.0);
    let init = waiters.drop_last();
    if waiters.last() == waiter {
        assert(r[r.len() - 1] == waiter.1);
    } else {
        let k = choose|k: int| 0 <= k < waiters.len() && waiters[k] == waiter;
        assert(init[k] == waiter);
        lemma_token_is_for(init, waiter);
        let ri = tokens_for(init, waiter.0);
        let m = choose|m: int| 0 <= m < ri.len() && ri[m] == waiter.1;
        assert(r[m] == waiter.1);
    }
}

/// Taking in jobs of other identifiers leaves a job as it is held, and
/// leaves those who wait for it waiting.
pub proof fn lemma_sync_leaves_others(
    board: BoardView,
    snapshot: Seq<JobView>,
    id: u128,
    waiter: (u128, u64),
)
    requires
        forall|j: int| 0 <= j < snapshot.len() ==> (#[trigger] snapshot[j]).id != id,
        board.waiters.contains(waiter),
        waiter.0 == id,
    ensures
        board.synced(snapshot).jobs.dom().contains(id) == board.jobs.dom().contains(id),
        board.jobs.dom().contains(id) ==> board.synced(snapshot).jobs[id] == board.jobs[id],
        board.synced(snapshot).waiters.contains(waiter),
    decreases snapshot.len(),
{
    if snapshot.len() > 0 {
        let init = snapshot.drop_last();
        let last = snapshot.last();
        assert forall|j: int| 0 <= j < init.len() implies (#[trigger] init[j]).id != id by {
            assert(init[j] == snapshot[j]);
        }
        lemma_sync_leaves_others(board, init, id, waiter);
        let mid = board.synced(init);
        assert(snapshot[snapshot.len() - 1].id != id);
        if verdict(mid.jobs, last) is Accept && last.state.terminal() {
            lemma_others_still_wait(mid.waiters, last.id, waiter);
        }
    }
}

/// A waiter outlives a lost connection. Whoever waits for a job keeps
/// waiting while the peer is away; and when the two meet again and the
/// snapshot of the peer brings the job as it ended, newer than the board
/// holds it, the board takes the ended job and the waiter is released.
pub proof fn law_resync_releases_waiter(
    board: BoardView,
    snapshot: Seq<JobView>,
    i: int,
    waiter: (u128, u64),
)
    requires
        sorted(snapshot),
        0 <= i < snapshot.len(),
        snapshot[i].state.terminal(),
        verdict(board.jobs, snapshot[i]) is Accept,
        board.waiters.contains(waiter),
        waiter.0 == snapshot[i].id,
    ensures
        board.synced(snapshot).jobs.contains_pair(snapshot[i].id, snapshot[i]),
        board.sync_released(snapshot).contains(waiter.1),
    decreases snapshot.len(),
{
    let init = snapshot.drop_last();
    let last = snapshot.last();
    let id = snapshot[i].id;
    let mid = board.synced(init);
    assert(sorted(init)) by {
        assert forall|a: int, b: int| 0 <= a < b < init.len() implies init[a].id < init[b].id by {
            assert(snapshot[a].id < snapshot[b].id);
        }
    }
    if i == snapshot.len() - 1 {
        assert forall|j: int| 0 <= j < init.len() implies (#[trigger] init[j]).id != id by {
            assert(snapshot[j].id < snapshot[i].id);
        }
        lemma_sync_leaves_others(board, init, id, waiter);
        assert(verdict(mid.jobs, last) is Accept);
        lemma_token_is_for(mid.waiters, waiter);
        let tokens = mid.released(last);
        let m = choose|m: int| 0 <= m < tokens.len() && tokens[m] == waiter.1;
        let before = board.sync_released(init);
        assert((before + tokens)[before.len() + m] == waiter.1);
    } else {
        assert(init[i] == snapshot[i]);
        law_resync_releases_waiter(board, init, i, waiter);
        assert(snapshot[i].id < snapshot[snapshot.len() - 1].id);
        let before = board.sync_released(init);
        let m = choose|m: int| 0 <= m < before.len() && before[m] == waiter.1;
        assert((before + mid.released(last))[m] == waiter.1);
    }
}

/// A job that a board takes is the job that it holds from then on.
pub proof fn law_taken_job_is_held(board: BoardView, job: JobView)
    requires
        verdict(board.jobs, job) is Accept,
    ensures
        board.added(job).jobs.contains_pair(job.id, job),
        !board.refuses(job),
{
}

/// The views of a sequence of jobs.
pub open spec fn job_views(jobs: Seq<Job>) -> Seq<JobView> {
    Seq::new(jobs.len(), |i: int| jobs[i]@)
}

/// The jobs of a sequence, each under its identifier.
#[verifier::opaque]
pub open spec fn index_jobs(jobs: Seq<JobView>) -> Map<u128, JobView> {
    Map::new(
        |id: u128| exists|i: int| 0 <= i < jobs.len() && (#[trigger] jobs[i]).id == id,
        |id: u128| jobs[choose|i: int| 0 <= i < jobs.len() && (#[trigger] jobs[i]).id == id],
    )
}

/// A sorted sequence is the snapshot of its index.
pub proof fn lemma_index_jobs(jobs: Seq<JobView>)
    requires
        sorted(jobs),
    ensures
        is_snapshot(jobs, index_jobs(jobs)),
{
    reveal(index_jobs);
    let m = index_jobs(jobs);
    assert forall|i: int| 0 <= i < jobs.len() implies m.contains_pair(
        (#[trigger] jobs[i]).id,
        jobs[i],
    ) by {
        let id = jobs[i].id;
        let k = choose|k: int| 0 <= k < jobs.len() && (#[trigger] jobs[k]).id == id;
        if k < i {
            assert(jobs[k].id < jobs[i].id);
        } else if i < k {
            assert(jobs[i].id < jobs[k].id);
        }
    }
}

/// What a call of `wait_for` hands back.
#[derive(Debug, PartialEq)]
pub enum Waiter {
    /// The job has ended: here it is.
    Ready(Job),
    /// The job has not ended, or is not on the board yet: the token will be
    /// released when it ends.
    Pending(u64),
}

/// What became of a job that was put on the board for the peer.
#[derive(Debug, PartialEq)]
pub struct Posted {
    /// The job to send, where the peer is connected.
    pub send: Option<Job>,
    /// The tokens of the waiters that the job released.
    pub released: Vec<u64>,
}

/// What is sent to a peer that has come back.
#[derive(Debug, PartialEq)]
pub struct Resumed {
    /// The jobs on the board, in the order of their identifiers.
    pub snapshot: Vec<Job>,
    /// The jobs that were held back, in the order in which they were held.
    pub queued: Vec<Job>,
}

/// The jobs exchanged with one peer.
#[derive(Debug)]
pub struct Board {
    jobs: Vec<Job>,
    waiters: Vec<(u128, u64)>,
    next_token: u64,
    queued: Vec<Job>,
}

impl View for Board {
    type V = BoardView;

    closed spec fn view(&self) -> BoardView {
        BoardView {
            jobs: index_jobs(job_views(self.jobs@)),
            waiters: self.waiters@,
            next_token: self.next_token,
            queued: job_views(self.queued@),
        }
    }
}

/// Copies of the jobs, in order.
fn copy_jobs(jobs: &Vec<Job>) -> (r: Vec<Job>)
    ensures
        job_views(r@) == job_views(jobs@),
        forall|i: int| 0 <= i < r.len() ==> (#[trigger] r[i])@.wf(),
{
    let mut r: Vec<Job> = Vec::new();
    let mut i: usize = 0;
    while i < jobs.len()
        invariant
            i <= jobs.len(),
            job_views(r@) == job_views(jobs@).take(i as int),
            forall|k: int| 0 <= k < r.len() ==> (#[trigger] r[k])@.wf(),
        decreases jobs.len() - i,
    {
        let ghost before = job_views(r@);
        let copy = jobs[i].clone();
        r.push(copy);
        proof {
            assert(job_views(r@) =~= before.push(jobs[i as int]@));
            assert(job_views(jobs@).take(i + 1) =~= job_views(jobs@).take(i as int).push(
                jobs[i as int]@,
            ));
        }
        i += 1;
    }
    proof {
        assert(job_views(jobs@).take(jobs.len() as int) =~= job_views(jobs@));
    }
    r
}

/// Parts `waiters` into those that wait for `id`, of which the tokens are
/// handed back, and the others.
fn part_waiters(waiters: &Vec<(u128, u64)>, id: u128) -> (r: (Vec<(u128, u64)>, Vec<u64>))
    ensures
        r.0@ == waiters_except(waiters@, id),
        r.1@ == tokens_for(waiters@, id),
{
    let mut kept: Vec<(u128, u64)> = Vec::new();
    let mut fired: Vec<u64> = Vec::new();
    let mut i: usize = 0;
    while i < waiters.len()
        invariant
            i <= waiters.len(),
            kept@ == waiters_except(waiters@.take(i as int), id),
            fired@ == tokens_for(waiters@.take(i as int), id),
        decreases waiters.len() - i,
    {
        proof {
            assert(waiters@.take(i + 1).drop_last() =~= waiters@.take(i as int));
            assert(waiters@.take(i + 1).last() == waiters@[i as int]);
        }
        let w = waiters[i];
        if w.0 == id {
            fired.push(w.1);
        } else {
            kept.push(w);
        }
        i += 1;
    }
    proof {
        assert(waiters@.take(waiters.len() as int) =~= waiters@);
    }
    (kept, fired)
}

impl Board {
    #[verifier::type_invariant]
    spec fn inv(self) -> bool {
        sorted(job_views(self.jobs@)) && self@.wf()
    }

    /// An empty board.
    pub fn new() -> (r: Self)
        ensures
            r@.jobs == Map::<u128, JobView>::empty(),
            r@.waiters.len() == 0,
            r@.queued.len() == 0,
            r@.next_token == 0,
            r@.wf(),
    {
        Board::empty_from(0)
    }

    /// A board without jobs, waiters or held-back jobs, that hands out
    /// tokens from `next_token` on.
    fn empty_from(next_token: u64) -> (r: Self)
        ensures
            r.jobs@.len() == 0,
            r.waiters@.len() == 0,
            r.queued@.len() == 0,
            r.next_token == next_token,
            r@.jobs == Map::<u128, JobView>::empty(),
    {
        let jobs: Vec<Job> = Vec::new();
        proof {
            lemma_index_empty(job_views(jobs@));
        }
        Board { jobs, waiters: Vec::new(), next_token, queued: Vec::new() }
    }

    /// Where the job of identifier `id` stands among the jobs, or would
    /// stand, and whether it is there.
    fn position(&self, id: u128) -> (r: (usize, bool))
        ensures
            r.0 <= self.jobs.len(),
            forall|i: int| 0 <= i < r.0 ==> (#[trigger] self.jobs[i])@.id < id,
            forall|i: int| r.0 < i < self.jobs.len() ==> (#[trigger] self.jobs[i])@.id > id,
            r.1 ==> r.0 < self.jobs.len() && self.jobs[r.0 as int]@.id == id,
            !r.1 && r.0 < self.jobs.len() ==> self.jobs[r.0 as int]@.id > id,
            r.1 == self@.jobs.dom().contains(id),
            r.1 ==> self@.jobs[id] == self.jobs[r.0 as int]@,
            sorted(job_views(self.jobs@)),
            self@.wf(),
    {
        proof {
            use_type_invariant(self);
            lemma_index_jobs(job_views(self.jobs@));
        }
        let ghost views = job_views(self.jobs@);
        let mut i: usize = 0;
        while i < self.jobs.len() && self.jobs[i].id() < id
            invariant
                i <= self.jobs.len(),
                views == job_views(self.jobs@),
                sorted(views),
                forall|k: int| 0 <= k < i ==> (#[trigger] views[k]).id < id,
            decreases self.jobs.len() - i,
        {
            i += 1;
        }
        let found = i < self.jobs.len() && self.jobs[i].id() == id;
        proof {
            assert forall|k: int| 0 <= k < i implies (#[trigger] self.jobs[k])@.id < id by {
                assert(views[k].id < id);
            }
            assert forall|k: int| i < k < self.jobs.len() implies (#[trigger] self.jobs[k])@.id
                > id by {
                assert(views[i as int].id < views[k].id);
            }
            if found {
                assert(self@.jobs.contains_pair(views[i as int].id, views[i as int]));
            } else if self@.jobs.dom().contains(id) {
                let k = choose|k: int| 0 <= k < views.len() && (#[trigger] views[k]).id == id;
                if k < i {
                    assert(views[k].id < id);
                } else if k > i {
                    assert(views[i as int].id < views[k].id);
                }
            }
        }
        (i, found)
    }

    /// What holds of every board holds of this one. Costs nothing to call.
    pub fn sound(&self)
        ensures
            self@.wf(),
    {
        proof {
            use_type_invariant(self);
        }
    }

    /// The number of jobs on the board.
    pub fn len(&self) -> (n: usize)
        ensures
            n == self@.jobs.dom().len(),
            self@.jobs.dom().finite(),
    {
        proof {
            use_type_invariant(self);
            lemma_index_len(job_views(self.jobs@));
        }
        self.jobs.len()
    }

    /// Offers `job` to the board. A job new to the board is taken. A job at
    /// the version of the one held changes nothing. An older job is refused
    /// as out of order. A newer job is taken, unless the one held has ended:
    /// then it is refused. A job that is taken and has ended releases those
    /// who waited for it: their tokens are handed back.
    pub fn add(&mut self, job: &Job) -> (r: Result<Vec<u64>, Error>)
        ensures
            final(self)@ == old(self)@.added(job@),
            match verdict(old(self)@.jobs, job@) {
                Verdict::Accept => r matches Ok(tokens) && tokens@ == old(self)@.released(job@),
                Verdict::Replay => r matches Ok(tokens) && tokens@.len() == 0,
                Verdict::OutOfOrder => r matches Err(Error::OutOfOrder(_)),
                Verdict::Ended => r matches Err(Error::InvalidState(_)),
            },
            grows_to(old(self)@.jobs, final(self)@.jobs),
            old(self)@.wf(),
            final(self)@.wf(),
    {
        let id = job.id();
        let (p, found) = self.position(id);
        let copy = job.clone();
        let ghost before = job_views(self.jobs@);
        let ghost board = self@;
        if found {
            let held_version = self.jobs[p].version();
            let held_state = self.jobs[p].state();
            if job.version() == held_version {
                return Ok(Vec::new());
            }
            if job.version() < held_version {
                return Err(Error::OutOfOrder("A newer version of the job is on the board".to_owned()));
            }
            if held_state.is_terminal() {
                return Err(Error::InvalidState("The job on the board has ended".to_owned()));
            }
        }
        let ended = job.state().is_terminal();
        let (kept, fired) = part_waiters(&self.waiters, id);
        proof {
            law_added_wf(board, job@);
            lemma_place(before, p as int, found, job@);
        }
        let mut taken = Board::empty_from(self.next_token);
        std::mem::swap(self, &mut taken);
        let Board { jobs, waiters, next_token, queued } = taken;
        let mut jobs = jobs;
        if found {
            jobs.set(p, copy);
        } else {
            jobs.insert(p, copy);
        }
        proof {
            assert(job_views(jobs@) =~= placed(before, p as int, found, job@));
        }
        if ended {
            *self = Board { jobs, waiters: kept, next_token, queued };
            Ok(fired)
        } else {
            *self = Board { jobs, waiters, next_token, queued };
            Ok(Vec::new())
        }
    }

    /// The job of identifier `id`, or `NotFound`.
    pub fn get(&self, id: u128) -> (r: Result<Job, Error>)
        ensures
            match r {
                Ok(job) => self@.jobs.contains_pair(id, job@),
                Err(e) => e is NotFound && !self@.jobs.dom().contains(id),
            },
    {
        let (p, found) = self.position(id);
        if found {
            Ok(self.jobs[p].clone())
        } else {
            Err(Error::NotFound("No such job on the board".to_owned()))
        }
    }

    /// Whether a job of identifier `id` is on the board.
    pub fn contains(&self, id: u128) -> (r: bool)
        ensures
            r == self@.jobs.dom().contains(id),
    {
        let (_, found) = self.position(id);
        found
    }

    /// Takes the job of identifier `id` off the board, if it is there.
    pub fn remove(&mut self, id: u128)
        ensures
            final(self)@ == old(self)@.removed(id),
            final(self)@.wf(),
    {
        let (p, found) = self.position(id);
        if found {
            let ghost before = job_views(self.jobs@);
            proof {
                lemma_unplace(before, p as int);
                lemma_removed_wf(self@, id);
            }
            let mut taken = Board::empty_from(self.next_token);
            std::mem::swap(self, &mut taken);
            let Board { jobs, waiters, next_token, queued } = taken;
            let mut jobs = jobs;
            let _ = jobs.remove(p);
            proof {
                assert(job_views(jobs@) =~= before.remove(p as int));
            }
            *self = Board { jobs, waiters, next_token, queued };
        } else {
            proof {
                assert(self@.jobs.remove(id) =~= self@.jobs);
            }
        }
    }

    /// Waits for the job of identifier `id` to end. Where it is on the
    /// board and has ended, it is handed back at once. Else a waiter is
    /// set down under the next token, which is handed back: whether or not
    /// the job is on the board yet. Refused with `InvalidState`, the board
    /// left as it is, where no token is left.
    pub fn wait_for(&mut self, id: u128) -> (r: Result<Waiter, Error>)
        ensures
            old(self)@.has_ended(id) ==> (r matches Ok(Waiter::Ready(job)) && job@ == old(
                self,
            )@.jobs[id] && final(self)@ == old(self)@),
            !old(self)@.has_ended(id) && old(self)@.next_token == u64::MAX ==> (r matches Err(
                Error::InvalidState(_),
            ) && final(self)@ == old(self)@),
            !old(self)@.has_ended(id) && old(self)@.next_token < u64::MAX ==> (r matches Ok(
                Waiter::Pending(token),
            ) && token == old(self)@.next_token && final(self)@ == old(self)@.awaited(id)),
            final(self)@.wf(),
    {
        let (p, found) = self.position(id);
        if found && self.jobs[p].state().is_terminal() {
            return Ok(Waiter::Ready(self.jobs[p].clone()));
        }
        if self.next_token == u64::MAX {
            return Err(Error::InvalidState("No waiter can be issued".to_owned()));
        }
        proof {
            lemma_awaited_wf(self@, id);
        }
        let mut taken = Board::empty_from(self.next_token);
        std::mem::swap(self, &mut taken);
        let Board { jobs, waiters, next_token, queued } = taken;
        let mut waiters = waiters;
        waiters.push((id, next_token));
        *self = Board { jobs, waiters, next_token: next_token + 1, queued };
        Ok(Waiter::Pending(next_token))
    }

    /// Takes away the waiter that holds `token`, as when its deadline has
    /// passed; says whether there was one.
    pub fn cancel(&mut self, token: u64) -> (r: bool)
        ensures
            r == holds_token(old(self)@.waiters, token),
            final(self)@ == (BoardView {
                waiters: waiters_without(old(self)@.waiters, token),
                ..old(self)@
            }),
            final(self)@.wf(),
    {
        proof {
            use_type_invariant(&*self);
        }
        let mut kept: Vec<(u128, u64)> = Vec::new();
        let mut seen = false;
        let mut i: usize = 0;
        while i < self.waiters.len()
            invariant
                i <= self.waiters.len(),
                kept@ == waiters_without(self.waiters@.take(i as int), token),
                seen == holds_token(self.waiters@.take(i as int), token),
            decreases self.waiters.len() - i,
        {
            let ghost head = self.waiters@.take(i as int);
            let ghost more = self.waiters@.take(i + 1);
            proof {
                assert(more.drop_last() =~= head);
                assert(more.last() == self.waiters@[i as int]);
            }
            let w = self.waiters[i];
            if w.1 == token {
                seen = true;
                proof {
                    assert(more[i as int].1 == token);
                }
            } else {
                kept.push(w);
                proof {
                    if holds_token(more, token) {
                        let k = choose|k: int| 0 <= k < more.len() && (#[trigger] more[k]).1 == token;
                        assert(head[k].1 == token);
                    }
                    if holds_token(head, token) {
                        let k = choose|k: int| 0 <= k < head.len() && (#[trigger] head[k]).1 == token;
                        assert(more[k].1 == token);
                    }
                }
            }
            i += 1;
        }
        proof {
            assert(self.waiters@.take(self.waiters.len() as int) =~= self.waiters@);
            lemma_without_wf(self@, token);
        }
        let mut taken = Board::empty_from(self.next_token);
        std::mem::swap(self, &mut taken);
        let Board { jobs, waiters, next_token, queued } = taken;
        *self = Board { jobs, waiters: kept, next_token, queued };
        seen
    }

    /// Holds `job` back for the peer, behind those already held.
    pub fn queue_for_send(&mut self, job: &Job)
        ensures
            final(self)@ == (BoardView { queued: old(self)@.queued.push(job@), ..old(self)@ }),
            final(self)@.wf(),
    {
        proof {
            use_type_invariant(&*self);
        }
        let copy = job.clone();
        let ghost before = job_views(self.queued@);
        let mut taken = Board::empty_from(self.next_token);
        std::mem::swap(self, &mut taken);
        let Board { jobs, waiters, next_token, queued } = taken;
        let mut queued = queued;
        queued.push(copy);
        proof {
            assert(job_views(queued@) =~= before.push(job@));
        }
        *self = Board { jobs, waiters, next_token, queued };
    }

    /// Hands over the jobs held back, in the order in which they were held,
    /// and holds none any more.
    pub fn drain_queued(&mut self) -> (r: Vec<Job>)
        ensures
            job_views(r@) == old(self)@.queued,
            final(self)@ == (BoardView { queued: Seq::empty(), ..old(self)@ }),
            final(self)@.wf(),
    {
        proof {
            use_type_invariant(&*self);
        }
        let mut taken = Board::empty_from(self.next_token);
        std::mem::swap(self, &mut taken);
        let Board { jobs, waiters, next_token, queued } = taken;
        let held: Vec<Job> = Vec::new();
        proof {
            assert(job_views(held@) =~= Seq::<JobView>::empty());
        }
        *self = Board { jobs, waiters, next_token, queued: held };
        queued
    }

    /// Copies of the jobs on the board, in the order of their identifiers:
    /// what is sent to the peer when the two meet again.
    pub fn snapshot(&self) -> (r: Vec<Job>)
        ensures
            is_snapshot(job_views(r@), self@.jobs),
            forall|i: int| 0 <= i < r.len() ==> (#[trigger] r[i])@.wf(),
    {
        proof {
            use_type_invariant(self);
            lemma_index_jobs(job_views(self.jobs@));
        }
        copy_jobs(&self.jobs)
    }

    /// Takes in the snapshot of a peer: each job is offered in turn by the
    /// rule of `add`, and one that is refused is passed over. The tokens
    /// released on the way are handed back.
    pub fn sync(&mut self, snapshot: &Vec<Job>) -> (r: Vec<u64>)
        ensures
            final(self)@ == old(self)@.synced(job_views(snapshot@)),
            r@ == old(self)@.sync_released(job_views(snapshot@)),
            grows_to(old(self)@.jobs, final(self)@.jobs),
            final(self)@.wf(),
    {
        proof {
            use_type_invariant(&*self);
        }
        let ghost all = job_views(snapshot@);
        let ghost start = self@;
        let mut released: Vec<u64> = Vec::new();
        let mut i: usize = 0;
        while i < snapshot.len()
            invariant
                i <= snapshot.len(),
                all == job_views(snapshot@),
                start.wf(),
                self@ == start.synced(all.take(i as int)),
                released@ == start.sync_released(all.take(i as int)),
                grows_to(start.jobs, self@.jobs),
                self@.wf(),
            decreases snapshot.len() - i,
        {
            let ghost mid = self@;
            proof {
                assert(all.take(i + 1).drop_last() =~= all.take(i as int));
                assert(all.take(i + 1).last() == snapshot[i as int]@);
            }
            match self.add(&snapshot[i]) {
                Ok(tokens) => {
                    let mut tokens = tokens;
                    released.append(&mut tokens);
                },
                Err(_) => {},
            }
            proof {
                law_grows_transitive(start.jobs, mid.jobs, self@.jobs);
            }
            i += 1;
        }
        proof {
            assert(all.take(snapshot.len() as int) =~= all);
        }
        released
    }

    /// Puts `job` on the board for the peer and says what to do with it:
    /// send it, where the peer is connected, or nothing, where it is not:
    /// then the job is held back, and no error is raised. A job that the
    /// board refuses is neither sent nor held back.
    pub fn put(&mut self, job: &Job, connected: bool) -> (r: Result<Posted, Error>)
        ensures
            final(self)@ == old(self)@.posted(job@, connected),
            match verdict(old(self)@.jobs, job@) {
                Verdict::OutOfOrder => r matches Err(Error::OutOfOrder(_)),
                Verdict::Ended => r matches Err(Error::InvalidState(_)),
                _ => r matches Ok(posted) && posted.released@ == old(self)@.released(job@) && (
                match posted.send {
                    Some(copy) => connected && copy@ == job@,
                    None => !connected,
                }),
            },
            final(self)@.wf(),
    {
        let released = match self.add(job) {
            Ok(released) => released,
            Err(e) => {
                return Err(e);
            },
        };
        if connected {
            Ok(Posted { send: Some(job.clone()), released })
        } else {
            self.queue_for_send(job);
            Ok(Posted { send: None, released })
        }
    }

    /// What to send to the peer now that it has come back: first the
    /// snapshot of the board, then the jobs that were held back, in the
    /// order in which they were held. Nothing is held back afterwards.
    pub fn resume(&mut self) -> (r: Resumed)
        ensures
            is_snapshot(job_views(r.snapshot@), old(self)@.jobs),
            job_views(r.queued@) == old(self)@.queued,
            final(self)@ == old(self)@.resumed(),
            final(self)@.wf(),
    {
        let snapshot = self.snapshot();
        let queued = self.drain_queued();
        Resumed { snapshot, queued }
    }
}

/// `jobs` with `job` put at position `p`: in place of the job that stands
/// there, if that is the one of its identifier, else before it.
pub open spec fn placed(jobs: Seq<JobView>, p: int, found: bool, job: JobView) -> Seq<JobView> {
    if found {
        jobs.update(p, job)
    } else {
        jobs.insert(p, job)
    }
}

/// A job put in its place keeps the sequence sorted, and the index gains
/// the job under its identifier.
pub proof fn lemma_place(jobs: Seq<JobView>, p: int, found: bool, job: JobView)
    requires
        sorted(jobs),
        0 <= p <= jobs.len(),
        forall|i: int| 0 <= i < p ==> (#[trigger] jobs[i]).id < job.id,
        forall|i: int| p < i < jobs.len() ==> (#[trigger] jobs[i]).id > job.id,
        found ==> p < jobs.len() && jobs[p].id == job.id,
        !found && p < jobs.len() ==> jobs[p].id > job.id,
    ensures
        sorted(placed(jobs, p, found, job)),
        index_jobs(placed(jobs, p, found, job)) == index_jobs(jobs).insert(job.id, job),
{
    let after = placed(jobs, p, found, job);
    lemma_place_sorted(jobs, p, found, job);
    lemma_index_jobs(jobs);
    lemma_index_jobs(after);
    lemma_place_index(jobs, index_jobs(jobs), after, index_jobs(after), p, found, job);
}

proof fn lemma_place_sorted(jobs: Seq<JobView>, p: int, found: bool, job: JobView)
    requires
        sorted(jobs),
        0 <= p <= jobs.len(),
        forall|i: int| 0 <= i < p ==> (#[trigger] jobs[i]).id < job.id,
        forall|i: int| p < i < jobs.len() ==> (#[trigger] jobs[i]).id > job.id,
        found ==> p < jobs.len() && jobs[p].id == job.id,
        !found && p < jobs.len() ==> jobs[p].id > job.id,
    ensures
        sorted(placed(jobs, p, found, job)),
{
    let after = placed(jobs, p, found, job);
    let id = job.id;
    assert forall|i: int, j: int| 0 <= i < j < after.len() implies after[i].id < after[j].id by {
        if found {
            assert(jobs[i].id < jobs[j].id);
        } else {
            let oi = if i < p { i } else { i - 1 };
            let oj = if j < p { j } else { j - 1 };
            if i != p && j != p {
                assert(jobs[oi].id < jobs[oj].id);
            } else if i == p {
                assert(jobs[oj].id > id);
            } else {
                assert(jobs[oi].id < id);
            }
        }
    }
}

proof fn lemma_place_index(
    jobs: Seq<JobView>,
    m: Map<u128, JobView>,
    after: Seq<JobView>,
    x: Map<u128, JobView>,
    p: int,
    found: bool,
    job: JobView,
)
    requires
        is_snapshot(jobs, m),
        is_snapshot(after, x),
        after == placed(jobs, p, found, job),
        0 <= p <= jobs.len(),
        found ==> p < jobs.len() && jobs[p].id == job.id,
        !found ==> !m.dom().contains(job.id),
    ensures
        x == m.insert(job.id, job),
{
    let id = job.id;
    let y = m.insert(id, job);
    assert forall|k: u128|
        #![trigger x.dom().contains(k)]
        #![trigger y.dom().contains(k)]
        x.dom().contains(k) == y.dom().contains(k) && (x.dom().contains(k) ==> x[k] == y[k]) by {
        if k == id {
            assert(after[p].id == id);
            assert(x.contains_pair(after[p].id, after[p]));
        } else {
            if x.dom().contains(k) {
                let i = choose|i: int| 0 <= i < after.len() && (#[trigger] after[i]).id == k;
                assert(x.contains_pair(after[i].id, after[i]));
                let oi = if found || i < p { i } else { i - 1 };
                assert(jobs[oi] == after[i]);
                assert(m.contains_pair(jobs[oi].id, jobs[oi]));
            }
            if m.dom().contains(k) {
                let i = choose|i: int| 0 <= i < jobs.len() && (#[trigger] jobs[i]).id == k;
                assert(m.contains_pair(jobs[i].id, jobs[i]));
                let ni = if found || i < p { i } else { i + 1 };
                assert(after[ni] == jobs[i]);
                assert(x.contains_pair(after[ni].id, after[ni]));
            }
        }
    }
    assert(x =~= y);
}

/// A job taken out of a sorted sequence leaves it sorted, and the index
/// loses the job's identifier.
pub proof fn lemma_unplace(jobs: Seq<JobView>, p: int)
    requires
        sorted(jobs),
        0 <= p < jobs.len(),
    ensures
        sorted(jobs.remove(p)),
        index_jobs(jobs.remove(p)) == index_jobs(jobs).remove(jobs[p].id),
{
    let after = jobs.remove(p);
    assert forall|i: int, j: int| 0 <= i < j < after.len() implies after[i].id < after[j].id by {
        let oi = if i < p { i } else { i + 1 };
        let oj = if j < p { j } else { j + 1 };
        assert(jobs[oi].id < jobs[oj].id);
    }
    lemma_index_jobs(jobs);
    lemma_index_jobs(after);
    let m = index_jobs(jobs);
    let x = index_jobs(after);
    let y = m.remove(jobs[p].id);
    assert forall|k: u128|
        #![trigger x.dom().contains(k)]
        #![trigger y.dom().contains(k)]
        x.dom().contains(k) == y.dom().contains(k) && (x.dom().contains(k) ==> x[k] == y[k]) by {
        if x.dom().contains(k) {
            let i = choose|i: int| 0 <= i < after.len() && (#[trigger] after[i]).id == k;
            assert(x.contains_pair(after[i].id, after[i]));
            let oi = if i < p { i } else { i + 1 };
            assert(jobs[oi] == after[i]);
            assert(m.contains_pair(jobs[oi].id, jobs[oi]));
            if oi < p {
                assert(jobs[oi].id < jobs[p].id);
            } else {
                assert(jobs[p].id < jobs[oi].id);
            }
        }
        if y.dom().contains(k) {
            let i = choose|i: int| 0 <= i < jobs.len() && (#[trigger] jobs[i]).id == k;
            assert(m.contains_pair(jobs[i].id, jobs[i]));
            let ni = if i < p { i } else { i - 1 };
            assert(after[ni] == jobs[i]);
            assert(x.contains_pair(after[ni].id, after[ni]));
        }
    }
    assert(x =~= y);
}

/// A board that loses a job stays a board.
pub proof fn lemma_removed_wf(board: BoardView, id: u128)
    requires
        board.wf(),
    ensures
        board.removed(id).wf(),
{
    let after = board.removed(id);
    assert forall|k: u128| #[trigger] after.jobs.dom().contains(k) implies after.jobs[k].id == k
        && after.jobs[k].wf() by {
        assert(board.jobs.dom().contains(k));
    }
    assert forall|k: int|
        0 <= k < after.waiters.len() && after.jobs.dom().contains(
            (#[trigger] after.waiters[k]).0,
        ) implies !after.jobs[after.waiters[k].0].state.terminal() by {
        assert(board.jobs.dom().contains(board.waiters[k].0));
    }
}

/// A board that gains a waiter for a job that has not ended stays a board.
pub proof fn lemma_awaited_wf(board: BoardView, id: u128)
    requires
        board.wf(),
        !board.has_ended(id),
        board.next_token < u64::MAX,
    ensures
        board.awaited(id).wf(),
{
    let after = board.awaited(id);
    let n = board.waiters.len() as int;
    assert forall|k: int| 0 <= k < after.waiters.len() implies (#[trigger] after.waiters[k]).1
        < after.next_token && (after.jobs.dom().contains(after.waiters[k].0)
        ==> !after.jobs[after.waiters[k].0].state.terminal()) by {
        if k < n {
            assert(after.waiters[k] == board.waiters[k]);
        }
    }
    assert forall|k: int, l: int| 0 <= k < l < after.waiters.len() implies (
    #[trigger] after.waiters[k]).1 != (#[trigger] after.waiters[l]).1 by {
        assert(after.waiters[k] == board.waiters[k]);
        if l < n {
            assert(after.waiters[l] == board.waiters[l]);
        }
    }
}

/// A board that loses a waiter stays a board.
pub proof fn lemma_without_wf(board: BoardView, token: u64)
    requires
        board.wf(),
    ensures
        (BoardView { waiters: waiters_without(board.waiters, token), ..board }).wf(),
{
    let after = BoardView { waiters: waiters_without(board.waiters, token), ..board };
    lemma_waiters_without(board.waiters, token);
    assert forall|k: int| 0 <= k < after.waiters.len() implies (#[trigger] after.waiters[k]).1
        < after.next_token && (after.jobs.dom().contains(after.waiters[k].0)
        ==> !after.jobs[after.waiters[k].0].state.terminal()) by {
        let w = after.waiters[k];
        assert(board.waiters.contains(w));
        let m = choose|m: int| 0 <= m < board.waiters.len() && board.waiters[m] == w;
        assert(board.waiters[m].1 < board.next_token);
    }
    assert forall|k: int, l: int| 0 <= k < l < after.waiters.len() implies (
    #[trigger] after.waiters[k]).1 != (#[trigger] after.waiters[l]).1 by {
        let (m, n) = choose|m: int, n: int|
            0 <= m < n < board.waiters.len() && board.waiters[m] == after.waiters[k]
                && board.waiters[n] == after.waiters[l];
        assert(board.waiters[m].1 != board.waiters[n].1);
    }
}

/// No jobs, no index.
pub proof fn lemma_index_empty(jobs: Seq<JobView>)
    requires
        jobs.len() == 0,
    ensures
        index_jobs(jobs) == Map::<u128, JobView>::empty(),
{
    reveal(index_jobs);
    assert(index_jobs(jobs) =~= Map::<u128, JobView>::empty());
}

/// A board holds as many jobs as its sequence lists.
pub proof fn lemma_index_len(jobs: Seq<JobView>)
    requires
        sorted(jobs),
    ensures
        index_jobs(jobs).dom().finite(),
        index_jobs(jobs).dom().len() == jobs.len(),
    decreases jobs.len(),
{
    reveal(index_jobs);
    let m = index_jobs(jobs);
    if jobs.len() == 0 {
        assert(m.dom() =~= Set::<u128>::empty());
    } else {
        let init = jobs.drop_last();
        let last = jobs.last();
        assert(sorted(init)) by {
            assert forall|i: int, j: int| 0 <= i < j < init.len() implies init[i].id
                < init[j].id by {
                assert(jobs[i].id < jobs[j].id);
            }
        }
        lemma_index_len(init);
        lemma_index_jobs(jobs);
        lemma_index_jobs(init);
        let mi = index_jobs(init);
        assert(!mi.dom().contains(last.id)) by {
            if mi.dom().contains(last.id) {
                let i = choose|i: int| 0 <= i < init.len() && (#[trigger] init[i]).id == last.id;
                assert(jobs[i].id < jobs[jobs.len() - 1].id);
            }
        }
        assert(m.dom() =~= mi.dom().insert(last.id)) by {
            assert forall|k: u128| m.dom().contains(k) == mi.dom().insert(last.id).contains(
                k,
            ) by {
                if m.dom().contains(k) {
                    let i = choose|i: int| 0 <= i < jobs.len() && (#[trigger] jobs[i]).id == k;
                    if i < init.len() {
                        assert(init[i].id == k);
                    }
                }
                if mi.dom().contains(k) {
                    let i = choose|i: int| 0 <= i < init.len() && (#[trigger] init[i]).id == k;
                    assert(jobs[i].id == k);
                }
                if k == last.id {
                    assert(jobs[jobs.len() - 1].id == k);
                }
            }
        }
    }
}

} // verus!
