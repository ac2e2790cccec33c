//! The player: the render-thread state machine. Once per render tick it
//! drains at most one command from the command channel and then either pulls
//! samples from its decoder into the destination buffer or leaves the buffer
//! as the driver handed it (pre-zeroed silence).
//!
//! Opening a file needs the codec collaborator, which only the embedding
//! program can run; a tick that drains an open command therefore hands the
//! requested path back to the caller, who opens the source and installs it
//! through [`Player::open`] before the next tick.

use crate::channel::{pop_command, ring_new, ring_split, Command, CommandModel, Controller};
use crate::decoder::{
    pull_avail_after, pull_exhausted_after, pull_filled, ChunkSource, Decoder,
};
use vstd::prelude::*;

verus! {

/// How many commands the channel between controller and player can hold.
pub const COMMAND_QUEUE_CAPACITY: usize = 20;

/// The playback state owned by the player. `Stopped` is the initial state
/// and is reached again on pause or at end of stream.
#[derive(Clone, Copy, PartialEq, Eq, Structural, Debug)]
pub enum PlaybackState {
    Stopped,
    Playing,
}

/// The per-tick parameters the driver collaborator supplies: the destination
/// buffer (pre-zeroed by the driver) with the sample count to fill, and the
/// negotiated output format. Samples are 32-bit words, as everywhere in this
/// core.
pub struct PlaybackContext {
    pub sample_rate: u32,
    pub output_buffer: Vec<u32>,
    pub buffer_len: usize,
    pub num_of_channel: u32,
}

impl PlaybackContext {
    /// The requested length fits in the buffer.
    pub open spec fn wf(self) -> bool {
        self.buffer_len <= self.output_buffer@.len()
    }
}

/// The mathematical state of a player: everything its observable behaviour
/// depends on.
pub ghost struct PlayerModel {
    /// The playback state.
    pub state: PlaybackState,
    /// The path of the most recently installed file, empty initially.
    pub file: Seq<char>,
    /// Whether a decoder is installed.
    pub has_decoder: bool,
    /// What the installed decoder can still deliver.
    pub avail: Seq<u32>,
    /// Whether the installed decoder has reported end of stream.
    pub exhausted: bool,
}

/// A fresh player: stopped, no file, no decoder.
pub open spec fn initial_model() -> PlayerModel {
    PlayerModel {
        state: PlaybackState::Stopped,
        file: Seq::empty(),
        has_decoder: false,
        avail: Seq::empty(),
        exhausted: false,
    }
}

/// What draining one command does to the player, before any rendering.
/// An open command changes nothing here: it is handed back to the embedding
/// program, whose successful codec open becomes an [`install_step`].
/// Play is a no-op without a decoder (one cannot play nothing) and pause
/// stops regardless of the current state.
pub open spec fn command_step(m: PlayerModel, command: Option<CommandModel>) -> PlayerModel {
    match command {
        Some(CommandModel::Open(_)) => m,
        Some(CommandModel::Play) => if m.has_decoder {
            PlayerModel { state: PlaybackState::Playing, ..m }
        } else {
            m
        },
        Some(CommandModel::Pause) => PlayerModel { state: PlaybackState::Stopped, ..m },
        None => m,
    }
}

/// What installing a freshly opened source for `file` does: the decoder is
/// replaced, the playback state is untouched, so a client may pre-load a
/// file before starting playback.
pub open spec fn install_step(m: PlayerModel, file: Seq<char>, stream: Seq<u32>) -> PlayerModel {
    PlayerModel { state: m.state, file, has_decoder: true, avail: stream, exhausted: false }
}

/// What the render phase of one tick does: when playing, one pull for the
/// full requested length; a pull that delivers nothing means end of stream
/// and stops playback. When stopped, nothing happens.
pub open spec fn render_step(m: PlayerModel, requested: int) -> PlayerModel {
    if m.state == PlaybackState::Playing {
        PlayerModel {
            state: if pull_filled(m.avail, m.exhausted, requested) == 0 {
                PlaybackState::Stopped
            } else {
                PlaybackState::Playing
            },
            avail: pull_avail_after(m.avail, m.exhausted, requested),
            exhausted: pull_exhausted_after(m.avail, m.exhausted, requested),
            ..m
        }
    } else {
        m
    }
}

/// One whole tick: drain one command, then render — except that a tick that
/// drains an open command only hands the path back and renders silence, its
/// install arriving through [`Player::open`] before the next tick.
pub open spec fn tick_step(
    m: PlayerModel,
    command: Option<CommandModel>,
    requested: int,
) -> PlayerModel {
    match command {
        Some(CommandModel::Open(_)) => m,
        _ => render_step(command_step(m, command), requested),
    }
}

/// What one tick leaves in the destination buffer: when the drained command
/// leaves the player playing, the delivered samples followed by the buffer's
/// old tail; in every other case the buffer is untouched, so a pre-zeroed
/// buffer stays silent.
pub open spec fn tick_buffer(
    m: PlayerModel,
    command: Option<CommandModel>,
    buffer: Seq<u32>,
    requested: int,
) -> Seq<u32> {
    match command {
        Some(CommandModel::Open(_)) => buffer,
        _ => {
            let m1 = command_step(m, command);
            if m1.state == PlaybackState::Playing {
                let filled = pull_filled(m1.avail, m1.exhausted, requested);
                m1.avail.take(filled) + buffer.skip(filled)
            } else {
                buffer
            }
        },
    }
}

/// The open request one tick hands back: the path of a drained open
/// command, nothing otherwise.
pub open spec fn tick_request(command: Option<CommandModel>) -> Option<Seq<char>> {
    match command {
        Some(CommandModel::Open(path)) => Some(path),
        _ => None,
    }
}

/// Everything one render tick does, as a relation between the states and
/// buffers before and after, for the command the channel handed back.
pub open spec fn tick_rel(
    pre: PlayerModel,
    post: PlayerModel,
    buffer_pre: Seq<u32>,
    buffer_post: Seq<u32>,
    requested: int,
    command: Option<CommandModel>,
    request: Option<Seq<char>>,
) -> bool {
    &&& post == tick_step(pre, command, requested)
    &&& buffer_post == tick_buffer(pre, command, buffer_pre, requested)
    &&& request == tick_request(command)
}

/// The render-time state machine: owns at most one decoder and the consumer
/// half of the command channel; mutated only on the render thread.
pub struct Player {
    file_name: String,
    decoder: Option<Decoder>,
    state: PlaybackState,
    rx: ringbuf::Consumer<Command>,
}

impl Player {
    /// Playing implies a decoder is present, and any decoder is well formed.
    pub closed spec fn wf(self) -> bool {
        &&& self.state == PlaybackState::Playing ==> self.decoder is Some
        &&& self.decoder is Some ==> self.decoder->Some_0.wf()
    }

    /// The player's mathematical state.
    pub closed spec fn model(self) -> PlayerModel {
        PlayerModel {
            state: self.state,
            file: self.file_name@,
            has_decoder: self.decoder is Some,
            avail: if self.decoder is Some {
                self.decoder->Some_0.avail()
            } else {
                Seq::empty()
            },
            exhausted: if self.decoder is Some {
                self.decoder->Some_0.exhausted()
            } else {
                false
            },
        }
    }

    /// The current playback state.
    pub fn playback_state(&self) -> (state: PlaybackState)
        ensures
            state == self.model().state,
    {
        self.state
    }

    /// The path of the most recently installed file, empty before any.
    pub fn opened_file(&self) -> (file_name: &String)
        ensures
            file_name@ == self.model().file,
    {
        &self.file_name
    }

    /// Whether a decoder is installed.
    pub fn has_decoder(&self) -> (present: bool)
        ensures
            present == self.model().has_decoder,
    {
        self.decoder.is_some()
    }

    /// Installs a decoder for `file_name` over a freshly opened source,
    /// replacing any previous decoder and releasing its source; the playback
    /// state is untouched. The embedding program calls this when the codec
    /// collaborator opened the requested file; a failed open never reaches
    /// this call, leaving current playback undisturbed.
    pub fn open(&mut self, file_name: &str, source: ChunkSource)
        requires
            old(self).wf(),
            source.wf(),
        ensures
            final(self).wf(),
            final(self).model() == install_step(
                old(self).model(),
                file_name@,
                source.remaining(),
            ),
    {
        self.file_name = file_name.to_owned();
        self.decoder = Some(Decoder::open(source));
    }

    /// One render tick against an already drained command: applies the
    /// command, then, when playing, pulls one full buffer of samples and
    /// stops at end of stream. A drained open command is handed back as the
    /// returned request instead, the buffer left untouched for that tick.
    /// Verified for every command the channel could possibly hand back.
    pub fn tick(&mut self, command: Option<Command>, context: &mut PlaybackContext) -> (open_request:
        Option<String>)
        requires
            old(self).wf(),
            old(context).wf(),
        ensures
            final(self).wf(),
            final(context).wf(),
            final(context).sample_rate == old(context).sample_rate,
            final(context).buffer_len == old(context).buffer_len,
            final(context).num_of_channel == old(context).num_of_channel,
            final(context).output_buffer@.len() == old(context).output_buffer@.len(),
            tick_rel(
                old(self).model(),
                final(self).model(),
                old(context).output_buffer@,
                final(context).output_buffer@,
                old(context).buffer_len as int,
                command.deep_view(),
                open_request.deep_view(),
            ),
    {
        match command {
            Some(Command::Open(path)) => {
                return Some(path);
            },
            Some(Command::Play) => {
                if self.decoder.is_some() {
                    self.state = PlaybackState::Playing;
                }
            },
            Some(Command::Pause) => {
                self.state = PlaybackState::Stopped;
            },
            None => {},
        }

        let playing = match self.state {
            PlaybackState::Playing => true,
            PlaybackState::Stopped => false,
        };
        if playing {
            match self.decoder.as_mut() {
                Some(decoder) => {
                    let filled = decoder.pull(&mut context.output_buffer, context.buffer_len);
                    if filled == 0 {
                        self.state = PlaybackState::Stopped;
                    }
                },
                None => {},
            }
        }
        None
    }

    /// One render tick as the driver invokes it: drains at most one command
    /// from the channel and runs [`Player::tick`] on it. Which command the
    /// concurrent control thread made available cannot be known here, so the
    /// contract states that the tick relation holds for some command.
    pub fn render_next_block(&mut self, context: &mut PlaybackContext) -> (open_request: Option<
        String,
    >)
        requires
            old(self).wf(),
            old(context).wf(),
        ensures
            final(self).wf(),
            final(context).wf(),
            final(context).sample_rate == old(context).sample_rate,
            final(context).buffer_len == old(context).buffer_len,
            final(context).num_of_channel == old(context).num_of_channel,
            final(context).output_buffer@.len() == old(context).output_buffer@.len(),
            exists|command: Option<CommandModel>|
                tick_rel(
                    old(self).model(),
                    final(self).model(),
                    old(context).output_buffer@,
                    final(context).output_buffer@,
                    old(context).buffer_len as int,
                    command,
                    open_request.deep_view(),
                ),
    {
        let command = pop_command(&mut self.rx);
        let ghost command_model = command.deep_view();
        let open_request = self.tick(command, context);
        proof {
            assert(tick_rel(
                old(self).model(),
                self.model(),
                old(context).output_buffer@,
                context.output_buffer@,
                old(context).buffer_len as int,
                command_model,
                open_request.deep_view(),
            ));
        }
        open_request
    }
}

/// Builds the connected pair: the control-thread handle and the render-
/// thread player, joined by a bounded command channel.
pub fn create_a_player() -> (pair: (Controller, Player))
    ensures
        pair.1.wf(),
        pair.1.model() == initial_model(),
{
    let ring = ring_new(COMMAND_QUEUE_CAPACITY);
    let (tx, rx) = ring_split(ring);
    (
        Controller { tx },
        Player {
            file_name: String::new(),
            decoder: None,
            state: PlaybackState::Stopped,
            rx,
        },
    )
}

/// On any render tick whose drained command leaves the player stopped,
/// the destination buffer keeps its pre-call contents — a pre-zeroed
/// buffer stays silent.
pub proof fn lemma_silence_when_stopped(
    m: PlayerModel,
    command: Option<CommandModel>,
    buffer: Seq<u32>,
    requested: int,
)
    requires
        command_step(m, command).state == PlaybackState::Stopped,
    ensures
        tick_buffer(m, command, buffer, requested) == buffer,
{
}

/// A play command reaching a fresh player, before any open, leaves it
/// exactly as it was — stopped: one cannot play nothing.
pub proof fn lemma_play_without_open(requested: int)
    ensures
        tick_step(initial_model(), Some(CommandModel::Play), requested) == initial_model(),
{
}

/// Commands apply in the order pushed: open file a, play, pause, open
/// file b, play, drained one per tick with each open installed before the
/// next tick, leave the player playing file b with a decoder present,
/// wherever it started from.
pub proof fn lemma_command_ordering(
    m0: PlayerModel,
    file_a: Seq<char>,
    file_b: Seq<char>,
    stream_a: Seq<u32>,
    stream_b: Seq<u32>,
    requested: int,
)
    requires
        requested > 0,
        stream_b.len() > 0,
    ensures
        ({
            let m1 = install_step(
                tick_step(m0, Some(CommandModel::Open(file_a)), requested),
                file_a,
                stream_a,
            );
            let m2 = tick_step(m1, Some(CommandModel::Play), requested);
            let m3 = tick_step(m2, Some(CommandModel::Pause), requested);
            let m4 = install_step(
                tick_step(m3, Some(CommandModel::Open(file_b)), requested),
                file_b,
                stream_b,
            );
            let m5 = tick_step(m4, Some(CommandModel::Play), requested);
            m5.state == PlaybackState::Playing && m5.file == file_b && m5.has_decoder
        }),
{
}

} // verus!
