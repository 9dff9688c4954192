//! Connection state of the NATS client.

use vstd::prelude::*;

use std::time::Duration;

use crate::config::NatsConfig;
use crate::error::NatsError;

verus! {

/// Connection state of the NATS client.
#[derive(Debug, Clone, Copy, PartialEq, Eq, Structural)]
pub enum ConnectionState {
    Connected,
    Disconnected,
}

impl ConnectionState {
    /// The state's name, as it is displayed.
    pub fn as_str(&self) -> (s: &'static str)
        ensures
            s@ == (if *self == ConnectionState::Connected { "Connected"@ } else { "Disconnected"@ }),
    {
        match self {
            ConnectionState::Connected => "Connected",
            ConnectionState::Disconnected => "Disconnected",
        }
    }

    /// Whether the client is connected.
    pub fn is_connected(&self) -> (r: bool)
        ensures
            r == (*self == ConnectionState::Connected),
    {
        *self == ConnectionState::Connected
    }
}

/// A connection event reported by the NATS client.
#[derive(Debug)]
pub enum NatsEvent {
    Connected,
    Disconnected,
    ServerError(String),
    ClientError(String),
    LameDuckMode,
    SlowConsumer(u64),
    /// Any other event (draining, closed, ...).
    Other,
}

/// The connection state an event moves the client to: connected on `Connected`,
/// disconnected on `Disconnected`; every other event leaves the state as it is (`None`).
pub fn state_after_event(event: &NatsEvent) -> (r: Option<ConnectionState>)
    ensures
        r == match *event {
            NatsEvent::Connected => Some(ConnectionState::Connected),
            NatsEvent::Disconnected => Some(ConnectionState::Disconnected),
            _ => None,
        },
{
    match event {
        NatsEvent::Connected => Some(ConnectionState::Connected),
        NatsEvent::Disconnected => Some(ConnectionState::Disconnected),
        _ => None,
    }
}

/// What looking up the JetStream stream gave.
#[derive(Debug)]
pub enum StreamLookup {
    /// The stream exists, stored with this many replicas.
    Found { stored_replicas: usize },
    /// The server reports that no such stream exists.
    NotFound,
    /// The lookup failed otherwise, with this message.
    Failed(String),
}

/// How a stream retains its messages.
#[derive(Debug, Clone, Copy, PartialEq, Eq, Structural)]
pub enum StreamRetention {
    /// Messages are kept until a limit (age, count, size) removes them.
    Limits,
    /// Messages are kept while a consumer is interested in them.
    Interest,
    /// Messages are removed once acknowledged.
    WorkQueue,
}

/// Where a stream stores its messages.
#[derive(Debug, Clone, Copy, PartialEq, Eq, Structural)]
pub enum StreamStorage {
    File,
    Memory,
}

/// The settings a stream is created with.
#[derive(Debug)]
pub struct StreamSpec {
    pub name: String,
    pub subjects: Vec<String>,
    pub retention: StreamRetention,
    pub max_age: Duration,
    pub storage: StreamStorage,
    pub num_replicas: usize,
    pub duplicate_window: Duration,
}

/// `spec` is the stream that `config` asks for with `replicas` replicas: named after the
/// configured stream, capturing every subject under the configured prefix, kept by limits
/// for the configured retention, stored on file, with the configured duplicate window.
pub open spec fn is_desired_stream(spec: StreamSpec, config: NatsConfig, replicas: usize) -> bool {
    &&& spec.name@ == config.stream_name@
    &&& spec.subjects@.len() == 1
    &&& spec.subjects@[0]@ == config.subject@ + ".>"@
    &&& spec.retention == StreamRetention::Limits
    &&& spec.max_age == config.retention
    &&& spec.storage == StreamStorage::File
    &&& spec.num_replicas == replicas
    &&& spec.duplicate_window == config.duplicate_window
}

/// The stream that `config` asks for with `replicas` replicas.
pub fn desired_stream(config: &NatsConfig, replicas: usize) -> (spec: StreamSpec)
    ensures
        is_desired_stream(spec, *config, replicas),
{
    let mut subjects: Vec<String> = Vec::new();
    subjects.push(stream_subjects(config.subject.as_str()));
    StreamSpec {
        name: config.stream_name.clone(),
        subjects,
        retention: StreamRetention::Limits,
        max_age: config.retention,
        storage: StreamStorage::File,
        num_replicas: replicas,
        duplicate_window: config.duplicate_window,
    }
}

/// What stream setup does next.
#[derive(Debug)]
pub enum StreamSetupAction {
    /// Keep the existing stream. A replica count other than the configured one is only
    /// reported: changing it is left to an operator with a privileged identity.
    UseExisting { replicas_match: bool },
    /// Create the stream with these settings.
    Create(StreamSpec),
    /// Give up with this error.
    Fail(NatsError),
}

/// The subjects a stream with subject prefix `subject` captures: `"{subject}.>"`.
pub fn stream_subjects(subject: &str) -> (s: String)
    ensures
        s@ == subject@ + ".>"@,
{
    let mut s = subject.to_owned();
    s.append(".>");
    s
}

/// The setup decision for the stream of `config`, wanted with `configured_replicas`
/// replicas, given what looking it up gave.
pub fn stream_setup_action(lookup: StreamLookup, config: &NatsConfig, configured_replicas: usize) -> (a:
    StreamSetupAction)
    ensures
        match lookup {
            StreamLookup::Found { stored_replicas } => a == (StreamSetupAction::UseExisting {
                replicas_match: stored_replicas == configured_replicas,
            }),
            StreamLookup::NotFound => a matches StreamSetupAction::Create(spec)
                && is_desired_stream(spec, *config, configured_replicas),
            StreamLookup::Failed(msg) => a matches StreamSetupAction::Fail(NatsError::StreamSetup(text))
                && text@ == "Failed to query stream "@ + config.stream_name@ + ": "@ + msg@,
        },
{
    match lookup {
        StreamLookup::Found { stored_replicas } => StreamSetupAction::UseExisting {
            replicas_match: stored_replicas == configured_replicas,
        },
        StreamLookup::NotFound => StreamSetupAction::Create(desired_stream(config, configured_replicas)),
        StreamLookup::Failed(msg) => {
            let mut text = "Failed to query stream ".to_owned();
            text.append(config.stream_name.as_str());
            text.append(": ");
            text.append(msg.as_str());
            StreamSetupAction::Fail(NatsError::StreamSetup(text))
        },
    }
}

/// The error for a stream whose creation the server refused with `msg`.
pub fn stream_create_error(msg: &str) -> (e: NatsError)
    ensures
        e matches NatsError::StreamSetup(text) && text@ == "Failed to create stream: "@ + msg@,
{
    let mut text = "Failed to create stream: ".to_owned();
    text.append(msg);
    NatsError::StreamSetup(text)
}

} // verus!
