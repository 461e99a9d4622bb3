//! Frame compositing and size-targeting compression for animated GIF images.
//!
//! The library works on an animation held in memory: a [`Gif`] made of
//! [`Frame`]s. It rebuilds the full canvas that each frame shows
//! ([`compositor`]), compresses towards a target size by a sequence of lossy
//! passes ([`operations::compress`]), changes playback speed
//! ([`operations::speed`]) and canvas size ([`operations::tune`]). Reading and
//! writing files is left to the caller; [`container`] says what goes to a GIF
//! codec and what is made of its output.
//!
//! Every function carries a contract that Verus proves. The contracts are
//! stated over the views of the data types: [`model::FrameView`] and
//! [`model::GifView`].

pub mod compositor;
pub mod container;
pub mod error;
pub mod fixtures;
pub mod io;
pub mod model;
pub mod operations;
pub mod timing;

pub use crate::model::Frame;
pub use crate::model::Gif;
