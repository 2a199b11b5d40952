//! UNRUN's game logic without the floating point.
//!
//! The heart of the crate is a bounded rewind history ([`timeline`]): each
//! recorded frame is kept as a delta back to the previous frame ([`delta`]),
//! stored under a BLAKE3 content identifier ([`hash`], [`store`]), so repeated
//! content is stored once. Around it stand the byte layout of a game-state
//! snapshot ([`snapshot`]), the bonus-terminal code editor ([`editor`]), the
//! decisions of one frame of the game loop ([`control`], [`events`]) and of the
//! audio layer ([`mixer`]), the framing of generated audio as WAVE files
//! ([`wav`], [`noise`]) and the check of a captured framebuffer against the
//! orientation probe ([`orientation`]).

pub mod control;
pub mod delta;
pub mod error;
pub mod hash;
pub mod store;
pub mod timeline;
pub mod text;
pub mod editor;
pub mod events;
pub mod mixer;
pub mod noise;
pub mod orientation;
pub mod snapshot;
pub mod wav;
