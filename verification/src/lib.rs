//! A minimal streaming audio player core: a bounded command channel from a
//! control thread to a render thread, a two-state playback state machine, and
//! a pull-based decoder that reconciles irregular decoded chunks with the
//! fixed-size, deadline-bound buffers a real-time audio callback demands.
//!
//! The audio driver and the codec are external collaborators: the driver
//! invokes [`player::Player::render_next_block`] once per audio period, and
//! the codec fills a [`decoder::ChunkSource`] with decoded, resampled
//! samples. Everything between those edges — buffering, overflow, state
//! transitions, command handling — lives here, with its behaviour stated in
//! contracts.

pub mod channel;
pub mod decoder;
pub mod player;
