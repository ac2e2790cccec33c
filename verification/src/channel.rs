//! The command channel: a bounded single-producer/single-consumer queue that
//! carries transport commands from the control thread to the render thread.
//! The queue itself comes from the `ringbuf` crate; the render side never
//! blocks on `pop` and the control side never blocks on `push`.
//!
//! Because the two halves of the queue are mutated concurrently by two
//! threads, no contract here relates a `pop` to the `push`es that preceded
//! it: the player's logic is instead verified for every command a `pop`
//! could possibly hand back.

use vstd::prelude::*;

verus! {

/// A transport command issued by the control thread and consumed by the
/// player, at most one per render tick.
pub enum Command {
    /// Open the file with the given path and install a decoder for it.
    Open(String),
    /// Start (or resume) playback, if a decoder is present.
    Play,
    /// Stop playback without discarding the decoder.
    Pause,
}

/// The mathematical shape of a `Command`: the path as a sequence of
/// characters, with no heap value attached.
pub ghost enum CommandModel {
    Open(Seq<char>),
    Play,
    Pause,
}

impl View for Command {
    type V = CommandModel;

    open spec fn view(&self) -> CommandModel {
        match self {
            Command::Open(path) => CommandModel::Open(path@),
            Command::Play => CommandModel::Play,
            Command::Pause => CommandModel::Pause,
        }
    }
}

impl DeepView for Command {
    type V = CommandModel;

    open spec fn deep_view(&self) -> CommandModel {
        self.view()
    }
}

#[verifier::external_type_specification]
#[verifier::external_body]
#[verifier::reject_recursive_types(T)]
pub struct ExRingBuffer<T>(ringbuf::RingBuffer<T>);

#[verifier::external_type_specification]
#[verifier::external_body]
#[verifier::reject_recursive_types(T)]
pub struct ExProducer<T>(ringbuf::Producer<T>);

#[verifier::external_type_specification]
#[verifier::external_body]
#[verifier::reject_recursive_types(T)]
pub struct ExConsumer<T>(ringbuf::Consumer<T>);

/// Relies on `ringbuf::RingBuffer::new`: allocates a bounded queue that holds
/// up to `capacity` elements.
#[verifier::external_body]
pub(crate) fn ring_new(capacity: usize) -> ringbuf::RingBuffer<Command> {
    ringbuf::RingBuffer::new(capacity)
}

/// Relies on `ringbuf::RingBuffer::split`: hands out the producer and
/// consumer halves of the queue, which may then live on different threads.
#[verifier::external_body]
pub(crate) fn ring_split(
    ring: ringbuf::RingBuffer<Command>,
) -> (ringbuf::Producer<Command>, ringbuf::Consumer<Command>) {
    ring.split()
}

/// Relies on `ringbuf::Producer::push`: appends the command in FIFO order
/// unless the queue is full, in which case the command is handed back and
/// dropped here. Returns whether the command was accepted. No clause is
/// stated: whether room exists depends on the consumer half, which the render
/// thread drains concurrently.
#[verifier::external_body]
pub(crate) fn push_command(tx: &mut ringbuf::Producer<Command>, command: Command) -> bool {
    tx.push(command).is_ok()
}

/// Relies on `ringbuf::Consumer::pop`: removes and returns the oldest queued
/// command without blocking, or `None` when the queue is empty. No clause is
/// stated: which command, if any, comes back depends on what the control
/// thread has pushed.
#[verifier::external_body]
pub(crate) fn pop_command(rx: &mut ringbuf::Consumer<Command>) -> Option<Command> {
    rx.pop()
}

/// The control-thread-facing handle: each call enqueues one command and
/// returns immediately, fire and forget. A full queue silently drops the
/// command.
pub struct Controller {
    pub(crate) tx: ringbuf::Producer<Command>,
}

impl Controller {
    /// Asks the render thread to open `file_name` and install a decoder for
    /// it; playback state is left as it is.
    pub fn open(&mut self, file_name: String) {
        let _ = push_command(&mut self.tx, Command::Open(file_name));
    }

    /// Asks the render thread to start playback.
    pub fn play(&mut self) {
        let _ = push_command(&mut self.tx, Command::Play);
    }

    /// Asks the render thread to stop playback, keeping the decode position.
    pub fn pause(&mut self) {
        let _ = push_command(&mut self.tx, Command::Pause);
    }
}

} // verus!
