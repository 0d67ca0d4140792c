//! The control worker: the one sequential task that turns command tokens
//! into exchanges with the device.
//!
//! The worker is a state machine. The program around it takes tokens from
//! the inbound queue, writes to and reads from the socket, and puts payloads
//! on the outbound queue; it tells the worker what happened as an [`Event`]
//! and does what the returned [`Action`] says. The worker is idle between
//! tokens and dispatching from the moment it accepts a token until the
//! exchange with the device is over, one token at a time.

use crate::session::{
    acquire_data_query, acquire_start_command, acquire_stop_command, generator_form_command,
    generator_start_command, generator_stop_command, Redpitaya,
};
use crate::text::equal;
use crate::wire::{frame, framed, strip_terminator, stripped};
use vstd::prelude::*;
use vstd::string::*;

verus! {

/// Where the worker stands.
#[derive(Debug, Clone, Copy, PartialEq, Eq, Structural)]
pub enum Phase {
    /// Waiting for a token.
    Idle,
    /// Dispatching: a command is being written. `expects_reply` says whether
    /// the device answers it.
    Writing { expects_reply: bool },
    /// Dispatching: the command is written and the reply line is awaited.
    Reading,
}

/// What the program reports to the worker.
#[derive(Debug, PartialEq, Eq)]
pub enum Event {
    /// A token was taken from the inbound queue.
    Token(String),
    /// The command was written.
    Sent,
    /// A line was read, terminator included.
    Line(String),
    /// Writing or reading failed.
    Failed,
}

/// What the worker asks the program to do.
#[derive(Debug, PartialEq, Eq)]
pub enum Action {
    /// Write this line to the device, as it is, then report `Sent` or
    /// `Failed`.
    Write(String),
    /// Read one line from the device, then report `Line` or `Failed`.
    Read,
    /// Put this payload on the outbound queue. The worker is idle again.
    Deliver(String),
    /// The command is written and needs no reply. The worker is idle again.
    Completed,
    /// The token asked for data while acquisition is not started. Nothing
    /// was sent and nothing is delivered. The worker stays idle.
    Refused,
    /// The token is not in the vocabulary. It is dropped, which is worth a
    /// warning. The worker stays idle.
    Unknown,
    /// The transport failed. The token in flight is dropped, which is worth
    /// a log entry. The worker is idle again.
    Abandoned,
    /// The event does not belong to the phase the worker is in. Nothing
    /// changes.
    Ignored,
}

/// An event by its content.
pub enum EventModel {
    Token(Seq<char>),
    Sent,
    Line(Seq<char>),
    Failed,
}

/// An action by its content.
pub enum ActionModel {
    Write(Seq<char>),
    Read,
    Deliver(Seq<char>),
    Completed,
    Refused,
    Unknown,
    Abandoned,
    Ignored,
}

/// The state of a worker: whether its session counts acquisition as
/// started, and its phase.
pub struct WorkerModel {
    pub started: bool,
    pub phase: Phase,
}

impl View for Event {
    type V = EventModel;

    open spec fn view(&self) -> EventModel {
        match self {
            Event::Token(token) => EventModel::Token(token@),
            Event::Sent => EventModel::Sent,
            Event::Line(raw) => EventModel::Line(raw@),
            Event::Failed => EventModel::Failed,
        }
    }
}

impl View for Action {
    type V = ActionModel;

    open spec fn view(&self) -> ActionModel {
        match self {
            Action::Write(line) => ActionModel::Write(line@),
            Action::Read => ActionModel::Read,
            Action::Deliver(payload) => ActionModel::Deliver(payload@),
            Action::Completed => ActionModel::Completed,
            Action::Refused => ActionModel::Refused,
            Action::Unknown => ActionModel::Unknown,
            Action::Abandoned => ActionModel::Abandoned,
            Action::Ignored => ActionModel::Ignored,
        }
    }
}

/// The token that starts the acquisition.
pub open spec fn start_token() -> Seq<char> {
    "oscillo/start"@
}

/// The token that stops the acquisition.
pub open spec fn stop_token() -> Seq<char> {
    "oscillo/stop"@
}

/// The token that asks for the acquired data.
pub open spec fn data_token() -> Seq<char> {
    "oscillo/data"@
}

/// The token that switches the generator on.
pub open spec fn generator_start_token() -> Seq<char> {
    "generator/start"@
}

/// The token that switches the generator off.
pub open spec fn generator_stop_token() -> Seq<char> {
    "generator/stop"@
}

/// The token that selects the sine waveform.
pub open spec fn generator_sine_token() -> Seq<char> {
    "generator/sinc"@
}

/// The six tokens of the vocabulary differ from each other.
pub proof fn lemma_tokens_differ()
    ensures
        start_token() != stop_token(),
        start_token() != data_token(),
        start_token() != generator_start_token(),
        start_token() != generator_stop_token(),
        start_token() != generator_sine_token(),
        stop_token() != data_token(),
        stop_token() != generator_start_token(),
        stop_token() != generator_stop_token(),
        stop_token() != generator_sine_token(),
        data_token() != generator_start_token(),
        data_token() != generator_stop_token(),
        data_token() != generator_sine_token(),
        generator_start_token() != generator_stop_token(),
        generator_start_token() != generator_sine_token(),
        generator_stop_token() != generator_sine_token(),
{
    reveal_strlit("oscillo/start");
    reveal_strlit("oscillo/stop");
    reveal_strlit("oscillo/data");
    reveal_strlit("generator/start");
    reveal_strlit("generator/stop");
    reveal_strlit("generator/sinc");
    assert(stop_token()[8] != data_token()[8]);
    assert(stop_token()[0] != generator_stop_token()[0]);
    assert(stop_token()[0] != generator_sine_token()[0]);
    assert(data_token()[0] != generator_stop_token()[0]);
    assert(data_token()[0] != generator_sine_token()[0]);
    assert(generator_stop_token()[11] != generator_sine_token()[11]);
    assert(start_token().len() == 13);
    assert(generator_start_token().len() == 15);
}

/// The command that a token names; none for a text outside the vocabulary.
pub open spec fn command_of(token: Seq<char>) -> Option<Seq<char>> {
    if token == start_token() {
        Some(acquire_start_command())
    } else if token == stop_token() {
        Some(acquire_stop_command())
    } else if token == data_token() {
        Some(acquire_data_query())
    } else if token == generator_start_token() {
        Some(generator_start_command())
    } else if token == generator_stop_token() {
        Some(generator_stop_command())
    } else if token == generator_sine_token() {
        Some(generator_form_command("sine"@))
    } else {
        None
    }
}

/// Whether acquisition counts as started once `token` has been accepted.
pub open spec fn started_after(started: bool, token: Seq<char>) -> bool {
    if token == start_token() {
        true
    } else if token == stop_token() {
        false
    } else {
        started
    }
}

/// What an idle worker does with a token.
///
/// A token outside the vocabulary is dropped. A data query while
/// acquisition is not started is refused. Any other token has its command
/// written, and whether acquisition counts as started follows the token at
/// once, whatever becomes of the command.
pub open spec fn accept(worker: WorkerModel, token: Seq<char>) -> (WorkerModel, ActionModel) {
    match command_of(token) {
        None => (worker, ActionModel::Unknown),
        Some(command) => {
            if token == data_token() && !worker.started {
                (worker, ActionModel::Refused)
            } else {
                (
                    WorkerModel {
                        started: started_after(worker.started, token),
                        phase: Phase::Writing { expects_reply: token == data_token() },
                    },
                    ActionModel::Write(framed(command)),
                )
            }
        },
    }
}

/// One step of the worker: the state after the event, and the action.
pub open spec fn step(worker: WorkerModel, event: EventModel) -> (WorkerModel, ActionModel) {
    let idle = WorkerModel { started: worker.started, phase: Phase::Idle };
    match (worker.phase, event) {
        (Phase::Idle, EventModel::Token(token)) => accept(worker, token),
        (Phase::Writing { expects_reply }, EventModel::Sent) => {
            if expects_reply {
                (
                    WorkerModel { started: worker.started, phase: Phase::Reading },
                    ActionModel::Read,
                )
            } else {
                (idle, ActionModel::Completed)
            }
        },
        (Phase::Writing { .. }, EventModel::Failed) => (idle, ActionModel::Abandoned),
        (Phase::Reading, EventModel::Line(raw)) => (idle, ActionModel::Deliver(stripped(raw))),
        (Phase::Reading, EventModel::Failed) => (idle, ActionModel::Abandoned),
        _ => (worker, ActionModel::Ignored),
    }
}

/// The control worker. It owns the device session.
#[derive(Debug)]
pub struct Worker {
    session: Redpitaya,
    phase: Phase,
}

impl View for Worker {
    type V = WorkerModel;

    closed spec fn view(&self) -> WorkerModel {
        WorkerModel { started: self.session.started(), phase: self.phase }
    }
}

impl Worker {
    /// An idle worker with a fresh session.
    pub fn new() -> (worker: Worker)
        ensures
            worker@ == (WorkerModel { started: false, phase: Phase::Idle }),
    {
        Worker { session: Redpitaya::new(), phase: Phase::Idle }
    }

    pub fn phase(&self) -> (phase: Phase)
        ensures
            phase == self@.phase,
    {
        self.phase
    }

    /// Whether the worker waits for a token.
    pub fn is_idle(&self) -> (idle: bool)
        ensures
            idle == (self@.phase == Phase::Idle),
    {
        match self.phase {
            Phase::Idle => true,
            _ => false,
        }
    }

    /// Whether the session counts acquisition as started.
    pub fn acquire_is_started(&self) -> (started: bool)
        ensures
            started == self@.started,
    {
        self.session.acquire_is_started()
    }

    /// Takes one event and says what to do next.
    pub fn step(&mut self, event: Event) -> (action: Action)
        ensures
            (final(self)@, action@) == step(old(self)@, event@),
    {
        match self.phase {
            Phase::Idle => match event {
                Event::Token(token) => self.accept(token.as_str()),
                _ => Action::Ignored,
            },
            Phase::Writing { expects_reply } => match event {
                Event::Sent => {
                    if expects_reply {
                        self.phase = Phase::Reading;
                        Action::Read
                    } else {
                        self.phase = Phase::Idle;
                        Action::Completed
                    }
                },
                Event::Failed => {
                    self.phase = Phase::Idle;
                    Action::Abandoned
                },
                _ => Action::Ignored,
            },
            Phase::Reading => match event {
                Event::Line(raw) => {
                    self.phase = Phase::Idle;
                    Action::Deliver(strip_terminator(raw.as_str()))
                },
                Event::Failed => {
                    self.phase = Phase::Idle;
                    Action::Abandoned
                },
                _ => Action::Ignored,
            },
        }
    }

    /// Takes a token while idle.
    fn accept(&mut self, token: &str) -> (action: Action)
        requires
            old(self)@.phase == Phase::Idle,
        ensures
            (final(self)@, action@) == accept(old(self)@, token@),
    {
        proof {
            lemma_tokens_differ();
        }
        let command = if equal(token, "oscillo/start") {
            self.session.aquire_start()
        } else if equal(token, "oscillo/stop") {
            self.session.aquire_stop()
        } else if equal(token, "oscillo/data") {
            match self.session.get_data() {
                Some(query) => {
                    self.phase = Phase::Writing { expects_reply: true };
                    return Action::Write(frame(query.as_str()));
                },
                None => {
                    return Action::Refused;
                },
            }
        } else if equal(token, "generator/start") {
            self.session.generator_start()
        } else if equal(token, "generator/stop") {
            self.session.generator_stop()
        } else if equal(token, "generator/sinc") {
            self.session.generator_set_form("sine")
        } else {
            return Action::Unknown;
        };
        self.phase = Phase::Writing { expects_reply: false };
        Action::Write(frame(command.as_str()))
    }
}

} // verus!
