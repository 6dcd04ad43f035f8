//! The handler of an agent that runs a batch cluster: what it does with a
//! job that reaches it. To add a user it asks the agent that keeps
//! accounts and waits for the answer; everything else it settles itself.

use vstd::prelude::*;
use crate::agent::{Envelope, EnvelopeView, Peer, PeerView};
use crate::board::{Board, BoardView, Waiter};
use crate::grammar::{Instruction, InstructionView, UserIdentifier, UserIdentifierView};
use crate::job::{created_job, fresh_id, now, parse_command, Job, JobView, Status};
use crate::json::{json_of_text, text_of_json};
use crate::text::concat;

verus! {

/// What can go wrong in the handler.
#[derive(Debug, PartialEq, Eq)]
pub enum Error {
    /// A job could not be made or changed.
    Job(crate::job::Error),
    /// No board is kept for the peer.
    State(String),
    /// The board refused a job or a waiter.
    Board(crate::board::Error),
    /// No agent is known that keeps accounts.
    NoAccount(String),
}

/// How the handler starts on a job.
#[derive(Debug, PartialEq)]
pub enum Started {
    /// The job is settled: this is how it ended.
    Done(Job),
    /// The agent that keeps accounts must be asked: this is the command
    /// for it.
    Ask(String),
}

/// What the handler has done so far.
#[derive(Debug, PartialEq)]
pub enum Begun {
    /// The job is settled: send it back.
    Finished(Job),
    /// The agent that keeps accounts was asked. `request` is on its board,
    /// and is to be sent to it now if `send` says so: else it is held back
    /// until the agent is connected again. `job`, now running, is to be
    /// reported to the sender; `waiter` says when the answer is there.
    Forwarded { request: Job, send: bool, job: Job, waiter: Waiter },
}

/// The command by which `recipient` asks `account` to add `user`: the
/// route through the two, and the instruction.
pub open spec fn request_text(
    recipient: PeerView,
    account: PeerView,
    user: UserIdentifierView,
) -> Seq<char> {
    recipient.name + seq!['.'] + account.name + seq![' '] + "add_user"@ + seq![' '] + user.text()
}

/// The command by which `recipient` asks `account` to add `user`.
pub fn request_command(recipient: &Peer, account: &Peer, user: &UserIdentifier) -> (r: String)
    ensures
        r@ == request_text(recipient@, account@, user@),
{
    let mut r = recipient.name().to_owned();
    r.push('.');
    r.append(account.name());
    r.push(' ');
    r.append("add_user");
    r.push(' ');
    r.append(user.to_string().as_str());
    r
}

/// What the handler settles a job with that it can settle itself.
pub open spec fn own_answer(instruction: InstructionView) -> Seq<char> {
    match instruction {
        InstructionView::RemoveUser(_) => "User removed"@,
        _ => "Hello, World! - we have run!"@,
    }
}

/// Starts on the job in `envelope` at time `now`. A user is added by
/// asking the agent that keeps accounts: `NoAccount` where none is known.
/// Every other job is completed on the spot: a removed user with a note
/// saying so, anything else with a greeting; a job that has ended or has
/// no version left is refused.
pub fn start(envelope: &Envelope, account: Option<&Peer>, now: i64) -> (r: Result<Started, Error>)
    ensures
        match envelope@.job.command.instruction {
            InstructionView::AddUser(user) => match account {
                Some(a) => r matches Ok(Started::Ask(text)) && text@ == request_text(
                    envelope@.recipient,
                    a@,
                    user,
                ),
                None => r matches Err(Error::NoAccount(_)),
            },
            other => if envelope@.job.can_advance() {
                r matches Ok(Started::Done(job)) && job@ == settled_alone(envelope@.job, now)
                    && job@.wf()
            } else {
                r matches Err(Error::Job(crate::job::Error::InvalidState(_)))
            },
        },
{
    let job = envelope.job();
    match job.instruction() {
        Instruction::AddUser(user) => match account {
            Some(account) => Ok(Started::Ask(request_command(&envelope.recipient(), account, &user))),
            None => Err(
                Error::NoAccount("Cannot run the job because there is no account agent".to_owned()),
            ),
        },
        Instruction::RemoveUser(_) => {
            let mut job = job;
            match job.completed_at("User removed", now) {
                Ok(()) => Ok(Started::Done(job)),
                Err(e) => Err(Error::Job(e)),
            }
        },
        _ => match job.execute_at(now) {
            Ok(job) => Ok(Started::Done(job)),
            Err(e) => Err(Error::Job(e)),
        },
    }
}

/// A job that the handler settles itself, settled at time `now`: complete,
/// with the JSON text of the handler's own answer as its result.
pub open spec fn settled_alone(job: JobView, now: i64) -> JobView {
    job.advanced(
        Status::Complete,
        Some(json_of_text(own_answer(job.command.instruction))),
        now,
    )
}

/// How asking the agent that keeps accounts comes out.
pub enum Asking {
    /// The board refuses the request.
    Refused,
    /// The job that the request is made for has ended, or has no version
    /// left.
    Ended,
    /// The answer is on the board already: here it is.
    Ready(JobView),
    /// No token is left for a waiter.
    NoToken,
    /// A waiter is set down under this token.
    Waits(u64),
}

/// How asking comes out, for the job `job`, the request `request` and the
/// board as it is before.
pub open spec fn asking(job: JobView, request: JobView, before: BoardView) -> Asking {
    let asked = before.added(request);
    if before.refuses(request) {
        Asking::Refused
    } else if !job.can_advance() {
        Asking::Ended
    } else if asked.has_ended(request.id) {
        Asking::Ready(asked.jobs[request.id])
    } else if asked.next_token == u64::MAX {
        Asking::NoToken
    } else {
        Asking::Waits(asked.next_token)
    }
}

/// The board after asking: a request that is not refused is put on it, and
/// held back where the agent is away; and where a waiter is set down, it is
/// on the board.
pub open spec fn board_asked(
    job: JobView,
    request: JobView,
    before: BoardView,
    connected: bool,
) -> BoardView {
    match asking(job, request, before) {
        Asking::Refused => before,
        Asking::Waits(_) => before.posted(request, connected).awaited(request.id),
        _ => before.posted(request, connected),
    }
}

/// The job after asking: running, one version on, where the request was
/// taken and the job could change; else as it was.
pub open spec fn job_asked(job: JobView, request: JobView, before: BoardView, now: i64) -> JobView {
    match asking(job, request, before) {
        Asking::Refused => job,
        Asking::Ended => job,
        _ => job.advanced(Status::Running, None, now),
    }
}

/// Puts `request` on the board of the agent that is asked, to be sent now
/// or held back as `connected` says, marks `job` as running at time `now`,
/// and sets down a waiter for the request, in that order. What fails
/// leaves what came before it done: `Board` where the board refuses the
/// request or has no token left, `Job` where the job has ended.
pub fn forward(job: &mut Job, request: &Job, board: &mut Board, connected: bool, now: i64) -> (r:
    Result<Waiter, Error>)
    ensures
        final(board)@ == board_asked(old(job)@, request@, old(board)@, connected),
        final(job)@ == job_asked(old(job)@, request@, old(board)@, now),
        match asking(old(job)@, request@, old(board)@) {
            Asking::Refused => r matches Err(Error::Board(_)),
            Asking::Ended => r matches Err(Error::Job(crate::job::Error::InvalidState(_))),
            Asking::Ready(found) => r matches Ok(Waiter::Ready(held)) && held@ == found,
            Asking::NoToken => r matches Err(Error::Board(crate::board::Error::InvalidState(_))),
            Asking::Waits(token) => r matches Ok(Waiter::Pending(t)) && t == token,
        },
        final(board)@.wf(),
        final(job)@.wf(),
{
    match board.put(request, connected) {
        Ok(_) => {},
        Err(e) => {
            job.sound();
            return Err(Error::Board(e));
        },
    }
    match job.running_at(now) {
        Ok(()) => {},
        Err(e) => {
            return Err(Error::Job(e));
        },
    }
    match board.wait_for(request.id()) {
        Ok(waiter) => Ok(waiter),
        Err(e) => Err(Error::Board(e)),
    }
}

/// The string that a job was completed with, where it was completed with
/// one.
pub open spec fn answer(outcome: JobView) -> Option<Seq<char>> {
    if outcome.state == Status::Complete {
        match outcome.result {
            Some(json) => text_of_json(json),
            None => None,
        }
    } else {
        None
    }
}

/// How an answer settles the job that waited for it: an answer completed
/// with a string completes the job with that string; an answer that ended
/// in error, or was completed with something else than a string, ends the
/// job in error, with a message that says why. An answer that has not
/// ended settles nothing.
pub open spec fn settlement(outcome: JobView) -> Option<(Status, Seq<char>)> {
    match (outcome.state, outcome.result) {
        (Status::Complete, Some(json)) => match text_of_json(json) {
            Some(text) => Some((Status::Complete, json_of_text(text))),
            None => Some((Status::Error, "Error adding user to account: the answer is no text"@)),
        },
        (Status::Error, Some(message)) => Some(
            (Status::Error, "Error adding user to account: "@ + message),
        ),
        _ => None,
    }
}

/// The job settled at time `now` by the answer `outcome`; nothing where the
/// job has ended or has no version left, or the answer has not ended.
pub open spec fn settled(job: JobView, outcome: JobView, now: i64) -> Option<JobView> {
    if !job.can_advance() {
        None
    } else {
        match settlement(outcome) {
            Some((state, result)) => Some(job.advanced(state, Some(result), now)),
            None => None,
        }
    }
}

/// Settles `job` at time `now` by the answer `outcome` of the agent that
/// was asked, and puts the settled job on the board. Refused with `Job`,
/// all left as it is, where the job has ended or has no version left, or
/// the answer has not ended. Else the job is settled; and it is put on the
/// board, unless the board refuses it: then `Board`, the board left as it
/// is.
pub fn conclude(job: &mut Job, outcome: &Job, board: &mut Board, now: i64) -> (r: Result<
    (),
    Error,
>)
    ensures
        match settled(old(job)@, outcome@, now) {
            None => r matches Err(Error::Job(crate::job::Error::InvalidState(_))) && final(job)@
                == old(job)@ && final(board)@ == old(board)@,
            Some(next) => final(job)@ == next && if old(board)@.refuses(next) {
                r matches Err(Error::Board(_)) && final(board)@ == old(board)@
            } else {
                r is Ok && final(board)@ == old(board)@.added(next)
            },
        },
        final(board)@.wf(),
        final(job)@.wf(),
{
    job.sound();
    outcome.sound();
    board.sound();
    if !outcome.state().is_terminal() {
        return Err(
            Error::Job(crate::job::Error::InvalidState("The answer has not ended".to_owned())),
        );
    }
    let settled = match outcome.result() {
        Ok(Some(text)) => job.completed_at(text.as_str(), now),
        Ok(None) => Err(crate::job::Error::InvalidState("The answer has not ended".to_owned())),
        Err(crate::job::Error::RunError(message)) => job.errored_at(
            concat("Error adding user to account: ", message.as_str()).as_str(),
            now,
        ),
        Err(_) => job.errored_at("Error adding user to account: the answer is no text", now),
    };
    match settled {
        Ok(()) => {},
        Err(e) => {
            return Err(Error::Job(e));
        },
    }
    match board.add(job) {
        Ok(_) => Ok(()),
        Err(e) => Err(Error::Board(e)),
    }
}

/// The agent that keeps accounts, as a value.
pub open spec fn peer_view(account: Option<&Peer>) -> Option<PeerView> {
    match account {
        Some(peer) => Some(peer@),
        None => None,
    }
}

/// What the handler does with the job in an envelope, where the request
/// that it may make gets the identifier `id` and the time is `now`.
///
/// To add a user it asks the agent that keeps accounts: `NoAccount` where
/// none is known, `Parse` where the names of the two agents make no route,
/// both with the board as it was; else it asks as `asking` says, with the
/// request made for the route through the two agents. Every other job it
/// settles itself, the board left as it is: refused where the job has
/// ended or has no version left.
pub open spec fn runs_as(
    envelope: EnvelopeView,
    account: Option<PeerView>,
    connected: bool,
    before: BoardView,
    id: u128,
    now: i64,
    r: Result<Begun, Error>,
    after: BoardView,
) -> bool {
    match envelope.job.command.instruction {
        InstructionView::AddUser(user) => match account {
            None => r matches Err(Error::NoAccount(_)) && after == before,
            Some(asked) => {
                let text = request_text(envelope.recipient, asked, user);
                let request = created_job(id, now, text);
                if !parse_command(text).is_valid() {
                    r matches Err(Error::Job(crate::job::Error::Parse(_))) && after == before
                } else {
                    &&& after == board_asked(envelope.job, request, before, connected)
                    &&& match asking(envelope.job, request, before) {
                        Asking::Refused => r matches Err(Error::Board(_)),
                        Asking::Ended => r matches Err(
                            Error::Job(crate::job::Error::InvalidState(_)),
                        ),
                        Asking::NoToken => r matches Err(
                            Error::Board(crate::board::Error::InvalidState(_)),
                        ),
                        Asking::Ready(found) => {
                            &&& r matches Ok(Begun::Forwarded { request: made, send, job, waiter })
                            &&& made@ == request
                            &&& send == connected
                            &&& job@ == envelope.job.advanced(Status::Running, None, now)
                            &&& waiter matches Waiter::Ready(held)
                            &&& held@ == found
                        },
                        Asking::Waits(token) => {
                            &&& r matches Ok(Begun::Forwarded { request: made, send, job, waiter })
                            &&& made@ == request
                            &&& send == connected
                            &&& job@ == envelope.job.advanced(Status::Running, None, now)
                            &&& waiter == Waiter::Pending(token)
                        },
                    }
                }
            },
        },
        _ => after == before && if envelope.job.can_advance() {
            r matches Ok(Begun::Finished(job)) && job@ == settled_alone(envelope.job, now)
        } else {
            r matches Err(Error::Job(crate::job::Error::InvalidState(_)))
        },
    }
}

/// What the handler does with the job in `envelope`, where the request
/// that it may make gets the identifier `id` and the time is `now`: it
/// settles the job itself, or asks the agent that keeps accounts by a
/// fresh job put on that agent's board, to be sent now or held back as
/// `connected` says, and sets down a waiter for the answer.
pub fn runner_at(
    envelope: &Envelope,
    account: Option<&Peer>,
    board: &mut Board,
    connected: bool,
    id: u128,
    now: i64,
) -> (r: Result<Begun, Error>)
    ensures
        runs_as(
            envelope@,
            peer_view(account),
            connected,
            old(board)@,
            id,
            now,
            r,
            final(board)@,
        ),
        final(board)@.wf(),
{
    board.sound();
    let started = match start(envelope, account, now) {
        Ok(started) => started,
        Err(e) => {
            return Err(e);
        },
    };
    match started {
        Started::Done(job) => Ok(Begun::Finished(job)),
        Started::Ask(text) => {
            let request = match Job::parse_at(id, now, text.as_str()) {
                Ok(request) => request,
                Err(e) => {
                    return Err(Error::Job(e));
                },
            };
            let mut job = envelope.job();
            match forward(&mut job, &request, board, connected, now) {
                Ok(waiter) => Ok(Begun::Forwarded { request, send: connected, job, waiter }),
                Err(e) => Err(e),
            }
        },
    }
}

/// What the handler does with the job in `envelope` at the time of the
/// call, with a fresh identifier for the request that it may make: what
/// `runner_at` does for some identifier and some time.
pub fn runner(envelope: &Envelope, account: Option<&Peer>, board: &mut Board, connected: bool) -> (r:
    Result<Begun, Error>)
    ensures
        exists|id: u128, now: i64| #[trigger]
            runs_as(
                envelope@,
                peer_view(account),
                connected,
                old(board)@,
                id,
                now,
                r,
                final(board)@,
            ),
        final(board)@.wf(),
{
    let id = fresh_id();
    let time = now();
    runner_at(envelope, account, board, connected, id, time)
}

/// Where nothing stands in the way, the agent that keeps accounts is
/// asked: with that agent known, a route that is valid, a job that can
/// change, and a board that is empty and has a token left, the handler
/// hands back a request, whatever identifier and time the request gets.
pub proof fn law_request_is_made(
    envelope: EnvelopeView,
    account: PeerView,
    user: crate::grammar::UserIdentifierView,
    connected: bool,
    before: BoardView,
    id: u128,
    now: i64,
    r: Result<Begun, Error>,
    after: BoardView,
)
    requires
        envelope.job.command.instruction == InstructionView::AddUser(user),
        parse_command(request_text(envelope.recipient, account, user)).is_valid(),
        envelope.job.can_advance(),
        before.jobs.dom() =~= Set::<u128>::empty(),
        before.next_token < u64::MAX,
        runs_as(envelope, Some(account), connected, before, id, now, r, after),
    ensures
        r matches Ok(Begun::Forwarded { request, send, job, waiter }) && request@ == created_job(
            id,
            now,
            request_text(envelope.recipient, account, user),
        ) && send == connected && job@.state == Status::Running && job@.id == envelope.job.id
            && waiter == Waiter::Pending(before.next_token),
        after.jobs.dom().contains(id),
        !connected ==> after.queued == before.queued.push(
            created_job(id, now, request_text(envelope.recipient, account, user)),
        ),
{
    let request = created_job(id, now, request_text(envelope.recipient, account, user));
    assert(!before.jobs.dom().contains(request.id));
}

/// A job that the handler settles itself comes back as that job: the same
/// identifier and command, complete, one version on, with the handler's
/// answer as its result.
pub proof fn law_settled_alone(job: JobView, now: i64)
    requires
        job.wf(),
        job.can_advance(),
    ensures
        settled_alone(job, now).id == job.id,
        settled_alone(job, now).command == job.command,
        settled_alone(job, now).version == job.version + 1,
        settled_alone(job, now).state == Status::Complete,
        settled_alone(job, now).result == Some(json_of_text(own_answer(job.command.instruction))),
        settled_alone(job, now).wf(),
{
}

/// After the answer has arrived and nothing stands in the way, the job is
/// settled: an answer that has ended settles a job that can change, the
/// settled job has ended, keeps its identifier and is one version on.
pub proof fn law_answer_settles(job: JobView, outcome: JobView, now: i64)
    requires
        job.wf(),
        outcome.wf(),
        job.can_advance(),
        outcome.state.terminal(),
    ensures
        settled(job, outcome, now) matches Some(next) && next.state.terminal() && next.id == job.id
            && next.version == job.version + 1 && next.wf(),
        outcome.state == Status::Error ==> settled(job, outcome, now).unwrap().state
            == Status::Error,
        answer(outcome) matches Some(text) ==> settled(job, outcome, now).unwrap().state
            == Status::Complete && settled(job, outcome, now).unwrap().result == Some(
            json_of_text(text),
        ),
{
}

} // verus!
