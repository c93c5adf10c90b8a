//! The kinds of failure of the worker.
use vstd::prelude::*;

verus! {

/// Everything that can go wrong while registering handlers or handling a command.
#[derive(Clone, Debug, PartialEq, Eq)]
pub enum WorkerError {
    /// The stream to the server failed; carries the server's status text.
    TransportError { message: String },
    /// No handler is registered for the command.
    MissingHandler { command: String },
    /// The command carries no payload.
    MissingPayload { command: String },
    /// An event has no sourcing handler for its type.
    MissingSourcingHandler { event_type: String },
    /// Events were emitted but the handler never said which aggregate they belong to.
    MissingAggregateId,
    /// The handler asked for a second, different aggregate.
    InconsistentAggregateId { current: String, requested: String },
    /// A payload could not be decoded.
    DecodeError { message: String },
    /// A handler of that name is already registered.
    AlreadyRegistered { name: String },
    /// The command is already claimed by another aggregate.
    ConflictingCommand { command: String },
    /// The event store did not accept the events.
    PersistFailure { message: String },
    /// A handler returned an error of its own.
    HandlerError { message: String },
    /// No aggregate handles a command of this name.
    CouldNotFindAggregateHandler,
}

/// The text that describes an error.
pub open spec fn error_text(e: WorkerError) -> Seq<char> {
    match e {
        WorkerError::TransportError { message } => "Transport error: "@ + message@,
        WorkerError::MissingHandler { command } => "No handler for: "@ + command@,
        WorkerError::MissingPayload { command } => "No payload data for: "@ + command@,
        WorkerError::MissingSourcingHandler { event_type } => "Missing sourcing handler for: "@ + event_type@,
        WorkerError::MissingAggregateId => "Missing aggregate id"@,
        WorkerError::InconsistentAggregateId { current, requested } =>
            "Inconsistent aggregate id: "@ + requested@ + " differs from "@ + current@,
        WorkerError::DecodeError { message } => "Decode error: "@ + message@,
        WorkerError::AlreadyRegistered { name } => "Handler already registered: "@ + name@,
        WorkerError::ConflictingCommand { command } => "Command already registered by another aggregate: "@ + command@,
        WorkerError::PersistFailure { message } => "Could not store events: "@ + message@,
        WorkerError::HandlerError { message } => message@,
        WorkerError::CouldNotFindAggregateHandler => "Could not find aggregate handler"@,
    }
}

impl WorkerError {
    /// The human-readable text of the error, as sent back to the server.
    pub fn message(&self) -> (r: String)
        ensures
            r@ == error_text(*self),
    {
        match self {
            WorkerError::TransportError { message } => String::from_str("Transport error: ").concat(message.as_str()),
            WorkerError::MissingHandler { command } => String::from_str("No handler for: ").concat(command.as_str()),
            WorkerError::MissingPayload { command } => String::from_str("No payload data for: ").concat(command.as_str()),
            WorkerError::MissingSourcingHandler { event_type } =>
                String::from_str("Missing sourcing handler for: ").concat(event_type.as_str()),
            WorkerError::MissingAggregateId => String::from_str("Missing aggregate id"),
            WorkerError::InconsistentAggregateId { current, requested } =>
                String::from_str("Inconsistent aggregate id: ").concat(requested.as_str()).concat(
                    " differs from ",
                ).concat(current.as_str()),
            WorkerError::DecodeError { message } => String::from_str("Decode error: ").concat(message.as_str()),
            WorkerError::AlreadyRegistered { name } =>
                String::from_str("Handler already registered: ").concat(name.as_str()),
            WorkerError::ConflictingCommand { command } =>
                String::from_str("Command already registered by another aggregate: ").concat(command.as_str()),
            WorkerError::PersistFailure { message } =>
                String::from_str("Could not store events: ").concat(message.as_str()),
            WorkerError::HandlerError { message } => message.clone(),
            WorkerError::CouldNotFindAggregateHandler => String::from_str("Could not find aggregate handler"),
        }
    }
}

} // verus!
