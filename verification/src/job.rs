//! Jobs: addressed, versioned work items. A job carries a command, moves
//! from `Pending` through `Running` to `Complete` or `Error`, and gains a
//! version with every change.

use vstd::prelude::*;
use crate::destination::{is_chain, is_route, Destination};
use crate::grammar::{parse_instruction, Instruction, InstructionView};
use crate::json::{from_json, json_of_text, text_of_json, to_json};
use crate::text::{join, join_text, split, views, words, words_text};

verus! {

/// `Uuid::new_v4`: a random identifier, as a number. Nothing is known of it.
#[verifier::external_body]
pub(crate) fn fresh_id() -> u128 {
    uuid::Uuid::new_v4().as_u128()
}

/// `Utc::now`: the time of the call in seconds since the epoch. Nothing is
/// known of it.
#[verifier::external_body]
pub(crate) fn now() -> i64 {
    chrono::Utc::now().timestamp()
}

/// Where a job stands.
#[derive(Debug, Clone, Copy, PartialEq, Eq, Structural)]
pub enum Status {
    Pending,
    Running,
    Complete,
    Error,
}

impl Status {
    /// `Complete` and `Error` are final: a job that reaches one stays there.
    pub open spec fn terminal(self) -> bool {
        self == Status::Complete || self == Status::Error
    }

    /// Whether the state is final.
    pub fn is_terminal(&self) -> (r: bool)
        ensures
            r == self.terminal(),
    {
        match self {
            Status::Complete => true,
            Status::Error => true,
            _ => false,
        }
    }
}

/// What can go wrong with a job.
#[derive(Debug, PartialEq, Eq)]
pub enum Error {
    /// JSON could not be written or read.
    SerdeJson(String),
    /// The job ended in error; the message is the job's result.
    RunError(String),
    /// The job is in a state that does not allow the change.
    InvalidState(String),
    /// The command does not follow the grammar.
    Parse(String),
    /// Anything else.
    Unknown(String),
}

impl Error {
    /// The message the error carries.
    pub fn message(&self) -> (r: &str)
        ensures
            r@ == self.text(),
    {
        match self {
            Error::SerdeJson(m) => m.as_str(),
            Error::RunError(m) => m.as_str(),
            Error::InvalidState(m) => m.as_str(),
            Error::Parse(m) => m.as_str(),
            Error::Unknown(m) => m.as_str(),
        }
    }

    /// The message as a sequence of characters.
    pub open spec fn text(&self) -> Seq<char> {
        match self {
            Error::SerdeJson(m) => m@,
            Error::RunError(m) => m@,
            Error::InvalidState(m) => m@,
            Error::Parse(m) => m@,
            Error::Unknown(m) => m@,
        }
    }
}

/// A command as a value of character sequences.
pub struct CommandView {
    pub destination: Seq<Seq<char>>,
    pub instruction: InstructionView,
}

impl CommandView {
    /// The parts have the shape that is kept.
    pub open spec fn wf(self) -> bool {
        is_chain(self.destination) && self.instruction.wf()
    }

    /// The destination names every agent and the instruction is valid.
    pub open spec fn is_valid(self) -> bool {
        is_route(self.destination) && self.instruction.is_valid()
    }

    /// The textual form: destination, a space, instruction.
    pub open spec fn text(self) -> Seq<char> {
        join(self.destination, '.') + seq![' '] + self.instruction.text()
    }
}

/// The command that `s` denotes: its first word is the destination, its
/// other words, a space between neighbours, are the instruction.
pub open spec fn parse_command(s: Seq<char>) -> CommandView {
    let w = words(s);
    if w.len() == 0 {
        CommandView {
            destination: split(Seq::empty(), '.'),
            instruction: parse_instruction(Seq::empty()),
        }
    } else {
        CommandView {
            destination: split(w[0], '.'),
            instruction: parse_instruction(join(w.skip(1), ' ')),
        }
    }
}

/// A destination and the instruction to carry out there.
#[derive(Debug, PartialEq)]
pub struct Command {
    destination: Destination,
    instruction: Instruction,
}

impl View for Command {
    type V = CommandView;

    closed spec fn view(&self) -> CommandView {
        CommandView { destination: self.destination@, instruction: self.instruction@ }
    }
}

impl Clone for Command {
    fn clone(&self) -> (r: Self)
        ensures
            r@ == self@,
    {
        Command { destination: self.destination.clone(), instruction: self.instruction.clone() }
    }
}

impl Command {
    /// Reads `destination instruction arguments...`.
    pub fn new(command: &str) -> (r: Self)
        ensures
            r@ == parse_command(command@),
            r@.wf(),
    {
        let parts = words_text(command);
        if parts.len() == 0 {
            proof {
                reveal_strlit("");
                assert(""@ =~= Seq::<char>::empty());
            }
            Command { destination: Destination::new(""), instruction: Instruction::new("") }
        } else {
            let rest = join_text(&parts, 1, ' ');
            proof {
                assert(views(parts@)[0] == parts[0]@);
            }
            Command {
                destination: Destination::new(parts[0].as_str()),
                instruction: Instruction::new(rest.as_str()),
            }
        }
    }

    pub fn destination(&self) -> (r: Destination)
        ensures
            r@ == self@.destination,
    {
        self.destination.clone()
    }

    pub fn instruction(&self) -> (r: Instruction)
        ensures
            r@ == self@.instruction,
    {
        self.instruction.clone()
    }

    /// Whether the destination names every agent and the instruction is
    /// valid.
    pub fn is_valid(&self) -> (r: bool)
        ensures
            r == self@.is_valid(),
            self@.wf(),
    {
        let routed = self.destination.is_valid();
        let instructed = self.instruction.is_valid();
        routed && instructed
    }

    /// The textual form: destination, a space, instruction.
    pub fn to_string(&self) -> (r: String)
        ensures
            r@ == self@.text(),
            self@.wf(),
    {
        let mut r = self.destination.to_string();
        r.push(' ');
        r.append(self.instruction.to_string().as_str());
        r
    }
}

/// A job as a value: what the contracts speak of.
pub struct JobView {
    pub id: u128,
    pub created: i64,
    pub updated: i64,
    pub version: u64,
    pub command: CommandView,
    pub state: Status,
    pub result: Option<Seq<char>>,
}

impl JobView {
    /// What holds of every job: versions start at one, a job is not updated
    /// before it is created, and it has a result exactly when its state is
    /// final.
    pub open spec fn wf(self) -> bool {
        &&& self.version >= 1
        &&& self.updated >= self.created
        &&& (self.result is Some <==> self.state.terminal())
        &&& self.command.wf()
    }

    /// The job may still change: its state is not final, and a further
    /// version exists.
    pub open spec fn can_advance(self) -> bool {
        !self.state.terminal() && self.version < u64::MAX
    }

    /// The job after a change at time `now`: one version on, never updated
    /// earlier than before.
    pub open spec fn advanced(self, state: Status, result: Option<Seq<char>>, now: i64) -> JobView {
        JobView {
            updated: if now > self.updated {
                now
            } else {
                self.updated
            },
            version: (self.version + 1) as u64,
            state,
            result,
            ..self
        }
    }
}

/// A job has a result exactly when it has ended.
pub proof fn law_result_iff_ended(job: JobView)
    requires
        job.wf(),
    ensures
        job.result is Some <==> job.state.terminal(),
{
}

/// Every change of a job raises its version, keeps what it is a job for,
/// and never sets back the time of its last update; and a job that has
/// ended, or has no version left, does not change.
pub proof fn law_change_raises_version(
    job: JobView,
    state: Status,
    result: Option<Seq<char>>,
    now: i64,
)
    requires
        job.wf(),
        job.can_advance(),
        result is Some <==> state.terminal(),
    ensures
        job.advanced(state, result, now).wf(),
        job.advanced(state, result, now).version == job.version + 1,
        job.advanced(state, result, now).id == job.id,
        job.advanced(state, result, now).command == job.command,
        job.advanced(state, result, now).created == job.created,
        job.advanced(state, result, now).updated >= job.updated,
        job.state.terminal() ==> !job.can_advance(),
{
}

/// The job that is created for `command` with the given identifier at the
/// given time.
pub open spec fn created_job(id: u128, now: i64, command: Seq<char>) -> JobView {
    JobView {
        id,
        created: now,
        updated: now,
        version: 1,
        command: parse_command(command),
        state: Status::Pending,
        result: None,
    }
}

/// A versioned unit of work addressed to an agent.
#[derive(Debug, PartialEq)]
pub struct Job {
    id: u128,
    created: i64,
    updated: i64,
    version: u64,
    command: Command,
    state: Status,
    result: Option<String>,
}

impl View for Job {
    type V = JobView;

    closed spec fn view(&self) -> JobView {
        JobView {
            id: self.id,
            created: self.created,
            updated: self.updated,
            version: self.version,
            command: self.command@,
            state: self.state,
            result: match self.result {
                Some(s) => Some(s@),
                None => None,
            },
        }
    }
}

impl Clone for Job {
    fn clone(&self) -> (r: Self)
        ensures
            r@ == self@,
            r@.wf(),
    {
        proof {
            use_type_invariant(self);
        }
        let result = match &self.result {
            Some(s) => Some(s.clone()),
            None => None,
        };
        Job {
            id: self.id,
            created: self.created,
            updated: self.updated,
            version: self.version,
            command: self.command.clone(),
            state: self.state,
            result,
        }
    }
}

impl Job {
    #[verifier::type_invariant]
    spec fn inv(self) -> bool {
        self@.wf()
    }

    /// A new job for `command`, with a random identifier and the time of the
    /// call: pending, at version one, without a result.
    pub fn new(command: &str) -> (r: Self)
        ensures
            r@ == created_job(r@.id, r@.created, command@),
            r@.wf(),
    {
        let id = fresh_id();
        let time = now();
        Job::create(id, time, command)
    }

    /// The new job for `command` with the given identifier and time.
    pub fn create(id: u128, now: i64, command: &str) -> (r: Self)
        ensures
            r@ == created_job(id, now, command@),
            r@.wf(),
    {
        Job {
            id,
            created: now,
            updated: now,
            version: 1,
            command: Command::new(command),
            state: Status::Pending,
            result: None,
        }
    }

    /// A new job for `command`, refused where the command is not valid.
    pub fn parse(command: &str) -> (r: Result<Self, Error>)
        ensures
            parse_command(command@).is_valid() ==> (r matches Ok(j) && j@ == created_job(
                j@.id,
                j@.created,
                command@,
            ) && j@.wf()),
            !parse_command(command@).is_valid() ==> r matches Err(Error::Parse(_)),
    {
        let id = fresh_id();
        let time = now();
        Job::parse_at(id, time, command)
    }

    /// The new job for `command` with the given identifier and time,
    /// refused where the command is not valid.
    pub fn parse_at(id: u128, now: i64, command: &str) -> (r: Result<Self, Error>)
        ensures
            parse_command(command@).is_valid() ==> (r matches Ok(j) && j@ == created_job(
                id,
                now,
                command@,
            ) && j@.wf()),
            !parse_command(command@).is_valid() ==> r matches Err(Error::Parse(_)),
    {
        let job = Job::create(id, now, command);
        if !job.command.is_valid() {
            return Err(Error::Parse("Invalid command".to_owned()));
        }
        Ok(job)
    }

    /// A job from its parts, as they come off the wire. Refused with
    /// `InvalidState` where the parts break what holds of every job.
    pub fn from_parts(
        id: u128,
        created: i64,
        updated: i64,
        version: u64,
        command: &str,
        state: Status,
        result: Option<String>,
    ) -> (r: Result<Self, Error>)
        ensures
            ({
                let job = JobView {
                    id,
                    created,
                    updated,
                    version,
                    command: parse_command(command@),
                    state,
                    result: match result {
                        Some(s) => Some(s@),
                        None => None,
                    },
                };
                if version >= 1 && updated >= created && (result is Some <==> state.terminal()) {
                    r matches Ok(j) && j@ == job && j@.wf()
                } else {
                    r matches Err(Error::InvalidState(_))
                }
            }),
    {
        if version < 1 || updated < created || result.is_some() != state.is_terminal() {
            return Err(Error::InvalidState("The parts do not make a job".to_owned()));
        }
        Ok(Job { id, created, updated, version, command: Command::new(command), state, result })
    }

    /// What holds of every job holds of this one. Costs nothing to call.
    pub fn sound(&self)
        ensures
            self@.wf(),
    {
        proof {
            use_type_invariant(self);
        }
    }

    pub fn id(&self) -> (r: u128)
        ensures
            r == self@.id,
    {
        self.id
    }

    pub fn destination(&self) -> (r: Destination)
        ensures
            r@ == self@.command.destination,
    {
        self.command.destination()
    }

    pub fn instruction(&self) -> (r: Instruction)
        ensures
            r@ == self@.command.instruction,
    {
        self.command.instruction()
    }

    /// The command in its textual form.
    pub fn command(&self) -> (r: String)
        ensures
            r@ == self@.command.text(),
    {
        self.command.to_string()
    }

    /// Where the job stands. Its state is final exactly when it has a
    /// result.
    pub fn state(&self) -> (r: Status)
        ensures
            r == self@.state,
            r.terminal() <==> self@.result is Some,
            self@.wf(),
    {
        proof {
            use_type_invariant(self);
        }
        self.state
    }

    pub fn created(&self) -> (r: i64)
        ensures
            r == self@.created,
    {
        self.created
    }

    pub fn updated(&self) -> (r: i64)
        ensures
            r == self@.updated,
            r >= self@.created,
    {
        proof {
            use_type_invariant(self);
        }
        self.updated
    }

    pub fn version(&self) -> (r: u64)
        ensures
            r == self@.version,
            r >= 1,
    {
        proof {
            use_type_invariant(self);
        }
        self.version
    }

    /// Whether the job ended in error.
    pub fn is_error(&self) -> (r: bool)
        ensures
            r == (self@.state == Status::Error),
    {
        self.state == Status::Error
    }

    /// The result as it is kept: JSON text after `Complete`, the error
    /// message after `Error`, nothing before.
    pub fn result_text(&self) -> (r: Option<String>)
        ensures
            r is Some <==> self@.result is Some,
            r matches Some(s) ==> Some(s@) == self@.result,
            r is Some <==> self@.state.terminal(),
    {
        proof {
            use_type_invariant(self);
        }
        match &self.result {
            Some(s) => Some(s.clone()),
            None => None,
        }
    }

    /// Moves the job to `state` with `result` at time `now`, one version on.
    fn advance(&mut self, state: Status, result: Option<String>, now: i64)
        requires
            old(self)@.can_advance(),
            result is Some <==> state.terminal(),
        ensures
            final(self)@ == old(self)@.advanced(
                state,
                match result {
                    Some(s) => Some(s@),
                    None => None,
                },
                now,
            ),
            final(self)@.wf(),
    {
        proof {
            use_type_invariant(&*self);
        }
        let updated = if now > self.updated {
            now
        } else {
            self.updated
        };
        let next = Job {
            id: self.id,
            created: self.created,
            updated,
            version: self.version + 1,
            command: self.command.clone(),
            state,
            result,
        };
        *self = next;
    }

    /// Whether the job may still change; the error that says why not.
    fn still_open(&self, what: &str) -> (r: Result<(), Error>)
        ensures
            self@.can_advance() ==> r is Ok,
            !self@.can_advance() ==> r matches Err(Error::InvalidState(_)),
    {
        if self.state.is_terminal() {
            return Err(Error::InvalidState(crate::text::concat(what, " a job that has ended")));
        }
        if self.version == u64::MAX {
            return Err(Error::InvalidState(crate::text::concat(what, " a job without versions left")));
        }
        Ok(())
    }

    /// Marks the job as being worked on, at time `now`. Refused with
    /// `InvalidState`, and the job left as it is, where it has ended or has
    /// no version left.
    pub fn running_at(&mut self, now: i64) -> (r: Result<(), Error>)
        ensures
            old(self)@.can_advance() ==> r is Ok && final(self)@ == old(self)@.advanced(
                Status::Running,
                None,
                now,
            ),
            !old(self)@.can_advance() ==> (r matches Err(Error::InvalidState(_)) && final(self)@
                == old(self)@),
            final(self)@.wf(),
    {
        proof {
            use_type_invariant(&*self);
        }
        match self.still_open("Cannot run") {
            Ok(()) => {
                self.advance(Status::Running, None, now);
                Ok(())
            },
            Err(e) => Err(e),
        }
    }

    /// Marks the job as being worked on, at the time of the call.
    pub fn running(&mut self) -> (r: Result<(), Error>)
        ensures
            old(self)@.can_advance() ==> r is Ok && final(self)@ == old(self)@.advanced(
                Status::Running,
                None,
                final(self)@.updated,
            ),
            !old(self)@.can_advance() ==> (r matches Err(Error::InvalidState(_)) && final(self)@
                == old(self)@),
            final(self)@.wf(),
    {
        let time = now();
        self.running_at(time)
    }

    /// Ends the job in `Complete` with `json` as its result, at time `now`.
    /// Refused with `InvalidState`, and the job left as it is, where it has
    /// ended or has no version left.
    pub fn completed_json_at(&mut self, json: &str, now: i64) -> (r: Result<(), Error>)
        ensures
            old(self)@.can_advance() ==> r is Ok && final(self)@ == old(self)@.advanced(
                Status::Complete,
                Some(json@),
                now,
            ),
            !old(self)@.can_advance() ==> (r matches Err(Error::InvalidState(_)) && final(self)@
                == old(self)@),
            final(self)@.wf(),
    {
        proof {
            use_type_invariant(&*self);
        }
        match self.still_open("Cannot set result on") {
            Ok(()) => {
                self.advance(Status::Complete, Some(json.to_owned()), now);
                Ok(())
            },
            Err(e) => Err(e),
        }
    }

    /// Ends the job in `Complete` with `json` as its result, at the time of
    /// the call.
    pub fn completed_json(&mut self, json: &str) -> (r: Result<(), Error>)
        ensures
            old(self)@.can_advance() ==> r is Ok && final(self)@ == old(self)@.advanced(
                Status::Complete,
                Some(json@),
                final(self)@.updated,
            ),
            !old(self)@.can_advance() ==> (r matches Err(Error::InvalidState(_)) && final(self)@
                == old(self)@),
            final(self)@.wf(),
    {
        let time = now();
        self.completed_json_at(json, time)
    }

    /// Ends the job in `Complete`, at time `now`, with the JSON text of
    /// `result` as its result. Refused with `InvalidState`, and the job left
    /// as it is, where it has ended or has no version left.
    pub fn completed_at(&mut self, result: &str, now: i64) -> (r: Result<(), Error>)
        ensures
            old(self)@.can_advance() ==> r is Ok && final(self)@ == old(self)@.advanced(
                Status::Complete,
                Some(json_of_text(result@)),
                now,
            ),
            !old(self)@.can_advance() ==> (r matches Err(Error::InvalidState(_)) && final(self)@
                == old(self)@),
            final(self)@.wf(),
    {
        let json = to_json(result);
        self.completed_json_at(json.as_str(), now)
    }

    /// Ends the job in `Complete` at the time of the call, with the JSON
    /// text of `result` as its result.
    pub fn completed(&mut self, result: &str) -> (r: Result<(), Error>)
        ensures
            old(self)@.can_advance() ==> r is Ok && final(self)@ == old(self)@.advanced(
                Status::Complete,
                Some(json_of_text(result@)),
                final(self)@.updated,
            ),
            !old(self)@.can_advance() ==> (r matches Err(Error::InvalidState(_)) && final(self)@
                == old(self)@),
            final(self)@.wf(),
    {
        let time = now();
        self.completed_at(result, time)
    }

    /// Ends the job in `Complete`, at time `now`, with a result that was
    /// written as JSON elsewhere, if it could be written. A job that has
    /// ended is refused with `InvalidState`. Of a job that has not ended, a
    /// result that could not be written is refused with `SerdeJson` and
    /// the message that came with it, whatever the version; one that could
    /// be written ends the job, or is refused with `InvalidState` where
    /// the job has no version left. A job that is refused is left as it
    /// is, so that it has a result exactly when it has ended.
    pub fn completed_with_at(&mut self, json: Result<String, String>, now: i64) -> (r: Result<
        (),
        Error,
    >)
        ensures
            if old(self)@.state.terminal() {
                r matches Err(Error::InvalidState(_)) && final(self)@ == old(self)@
            } else {
                match json {
                    Err(message) => r matches Err(Error::SerdeJson(m)) && m@ == message@
                        && final(self)@ == old(self)@,
                    Ok(text) => if old(self)@.version < u64::MAX {
                        r is Ok && final(self)@ == old(self)@.advanced(
                            Status::Complete,
                            Some(text@),
                            now,
                        )
                    } else {
                        r matches Err(Error::InvalidState(_)) && final(self)@ == old(self)@
                    },
                }
            },
            final(self)@.wf(),
            final(self)@.result is Some <==> final(self)@.state.terminal(),
    {
        proof {
            use_type_invariant(&*self);
        }
        if self.state.is_terminal() {
            return Err(Error::InvalidState("Cannot set result on a job that has ended".to_owned()));
        }
        match json {
            Ok(text) => self.completed_json_at(text.as_str(), now),
            Err(message) => Err(Error::SerdeJson(message)),
        }
    }

    /// Ends the job in `Error` with `message` as its result, at time `now`.
    /// Refused with `InvalidState`, and the job left as it is, where it has
    /// ended or has no version left.
    pub fn errored_at(&mut self, message: &str, now: i64) -> (r: Result<(), Error>)
        ensures
            old(self)@.can_advance() ==> r is Ok && final(self)@ == old(self)@.advanced(
                Status::Error,
                Some(message@),
                now,
            ),
            !old(self)@.can_advance() ==> (r matches Err(Error::InvalidState(_)) && final(self)@
                == old(self)@),
            final(self)@.wf(),
    {
        proof {
            use_type_invariant(&*self);
        }
        match self.still_open("Cannot set error on") {
            Ok(()) => {
                self.advance(Status::Error, Some(message.to_owned()), now);
                Ok(())
            },
            Err(e) => Err(e),
        }
    }

    /// Ends the job in `Error` with `message` as its result, at the time of
    /// the call.
    pub fn errored(&mut self, message: &str) -> (r: Result<(), Error>)
        ensures
            old(self)@.can_advance() ==> r is Ok && final(self)@ == old(self)@.advanced(
                Status::Error,
                Some(message@),
                final(self)@.updated,
            ),
            !old(self)@.can_advance() ==> (r matches Err(Error::InvalidState(_)) && final(self)@
                == old(self)@),
            final(self)@.wf(),
    {
        let time = now();
        self.errored_at(message, time)
    }

    /// The result of the job as a string: nothing while the job has not
    /// ended; `RunError` with the message after `Error`; after `Complete`
    /// the string that the result's JSON text denotes, or `SerdeJson` where
    /// it denotes none.
    pub fn result(&self) -> (r: Result<Option<String>, Error>)
        ensures
            match self@.state {
                Status::Pending => r matches Ok(None),
                Status::Running => r matches Ok(None),
                Status::Error => r matches Err(Error::RunError(m)) && Some(m@) == self@.result,
                Status::Complete => self@.result matches Some(json) && match text_of_json(json) {
                    Some(text) => r matches Ok(Some(s)) && s@ == text,
                    None => r matches Err(Error::SerdeJson(_)),
                },
            },
    {
        proof {
            use_type_invariant(self);
        }
        match self.state {
            Status::Pending => Ok(None),
            Status::Running => Ok(None),
            Status::Error => match &self.result {
                Some(result) => Err(Error::RunError(result.clone())),
                None => Err(Error::InvalidState("Unknown error".to_owned())),
            },
            Status::Complete => match &self.result {
                Some(result) => match from_json(result.as_str()) {
                    Ok(text) => Ok(Some(text)),
                    Err(e) => Err(Error::SerdeJson(e)),
                },
                None => Err(Error::Unknown("No result available".to_owned())),
            },
        }
    }

    /// Runs the job where no handler is set: a copy of the job, completed
    /// at time `now` with a greeting as its result.
    pub fn execute_at(&self, now: i64) -> (r: Result<Job, Error>)
        ensures
            self@.can_advance() ==> (r matches Ok(j) && j@ == self@.advanced(
                Status::Complete,
                Some(json_of_text("Hello, World! - we have run!"@)),
                now,
            ) && j@.wf()),
            !self@.can_advance() ==> r matches Err(Error::InvalidState(_)),
    {
        let mut job = self.clone();
        match job.completed_at("Hello, World! - we have run!", now) {
            Ok(()) => Ok(job),
            Err(e) => Err(e),
        }
    }

    /// Runs the job where no handler is set: a copy of the job, completed
    /// at the time of the call with a greeting as its result.
    pub fn execute(&self) -> (r: Result<Job, Error>)
        ensures
            self@.can_advance() ==> (r matches Ok(j) && j@ == self@.advanced(
                Status::Complete,
                Some(json_of_text("Hello, World! - we have run!"@)),
                j@.updated,
            )),
            !self@.can_advance() ==> r matches Err(Error::InvalidState(_)),
    {
        let mut job = self.clone();
        match job.completed("Hello, World! - we have run!") {
            Ok(()) => Ok(job),
            Err(e) => Err(e),
        }
    }

    /// A fresh job for the same command, with the given identifier and
    /// time: the only way on from a job that has ended.
    pub fn restarted(&self, id: u128, now: i64) -> (r: Job)
        ensures
            r@ == (JobView {
                id,
                created: now,
                updated: now,
                version: 1,
                state: Status::Pending,
                result: None,
                ..self@
            }),
            r@.wf(),
    {
        proof {
            use_type_invariant(self);
        }
        Job {
            id,
            created: now,
            updated: now,
            version: 1,
            command: self.command.clone(),
            state: Status::Pending,
            result: None,
        }
    }
}

} // verus!
