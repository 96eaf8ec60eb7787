//! A verified model of a distributed-object transport runtime.
//!
//! A value of a registered kind is *deconstructed* on one peer into a stream
//! of tagged wire frames, carried over a multiplexed channel, and
//! *constructed* back into an equivalent handle on the other peer.  The crate
//! is organised around the three subsystems of that runtime:
//!
//! * [`channel`] — the `IdChannel` multiplexer: fork allocation, frame
//!   routing, orphan buffering and per-fork FIFO delivery;
//! * [`kind`] — the deconstruct/construct exchanges for primitive values,
//!   futures, sinks and streams;
//! * [`protocol`] — the reflected-trait layer: `Call`/`Response` framing,
//!   method dispatch validation and typed casts ([`reflection`]).
//!
//! The wire shapes live in [`wire`]; [`codec`] gives them a verified
//! self-describing byte encoding with a proved round trip, and [`format`] a
//! human-readable rendering with its UTF-8 byte lift.  [`registry`] records
//! which wire kinds a process can decode, and [`graphics`] and
//! [`graphics_2d`] hold the plain example kinds that ride the channel.

pub mod channel;
pub mod codec;
pub mod format;
pub mod graphics;
pub mod graphics_2d;
pub mod kind;
pub mod protocol;
pub mod reflection;
pub mod registry;
pub mod wire;
