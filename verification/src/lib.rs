//! A multi-track audio mixer with exact, integer-only time keeping, and the
//! control plane that feeds it.
//!
//! Tracks are named, independently controllable sound sources. Each one
//! carries a playback mode and a cursor; the mixer advances every audible
//! track once per output frame, resamples it by linear interpolation and
//! sums the results without clipping.
//!
//! Time and amplitude are exact rationals over fixed denominators, so no
//! rounding drift can build up however long a track runs:
//!
//! * a cursor counts *ticks*, a tick being one tenth of an output frame
//!   period (a track at full speed advances ten ticks per frame, a slowed
//!   one nine);
//! * a frame value is an integer numerator over [`mixer::Mixer::scale`].
//!
//! The library decides and computes; it neither blocks nor touches a device,
//! a file or a thread. A host hands it what it has received (commands, load
//! completions, the bytes of a file, an output buffer to fill) and carries
//! out what it gets back.
//!
//! * [`action`]: the commands that drive a track.
//! * [`cue`]: the commands that game events give rise to.
//! * [`track`]: the playback state of a track and the state machine.
//! * [`wav`], [`store`]: decoded sample buffers and the table that holds them.
//! * [`resample`]: where a cursor falls in a buffer, and the value read there.
//! * [`mixer`]: one frame, one buffer of frames.
//! * [`manager`]: which tracks are loading and loaded, and what to pass on.
//! * [`loader`], [`assets`], [`light`]: rules for finding and reading assets
//!   and for naming shader uniforms.
//! * [`names`], [`text`]: name-keyed tables and decimal numerals.
pub mod action;
pub mod assets;
pub mod cue;
pub mod light;
pub mod loader;
pub mod manager;
pub mod mixer;
pub mod names;
pub mod resample;
pub mod store;
pub mod text;
pub mod track;
pub mod wav;
