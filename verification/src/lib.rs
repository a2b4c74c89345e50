//! Incremental demultiplexing of MPEG program and transport streams into
//! packets, and decoding of MPEG-1 video (intra and predictive pictures)
//! into planar frames.
//!
//! Everything works on bytes that the caller pushes in pieces of any size:
//! a function that lacks bytes says so, and how many where it can tell, and
//! is called again later. Every function is verified against a
//! mathematical model of the data it works on: `Ring` for the circular bit
//! buffer, `PsModel` for the demultiplexer and `VideoModel` for the decoder.
//!
//! - `bits`, `bitbuf`: bits of a byte buffer, the circular bit buffer and
//!   the cursor over a slice;
//! - `vlc`: the prefix-code tables of MPEG-1 video;
//! - `bytebuf`, `pkt`, `pktlaw`: a byte buffer, the demultiplexer, and
//!   what holds of it whatever it is fed;
//! - `idct`, `block`, `frame`: the inverse transform, the coefficients of a
//!   block, and the pixels of a frame;
//! - `video`, `picture`, `mblock`, `motion`, `vblock`: the decoder, from
//!   the sequence down to the block;
//! - `videolaw`: what holds of the decoder whatever the stream.
pub mod bits;
pub mod bitbuf;
pub mod vlc;
pub mod bytebuf;
pub mod pkt;
pub mod pktlaw;
pub mod idct;
pub mod block;
pub mod frame;
pub mod video;
pub mod picture;
pub mod mblock;
pub mod motion;
pub mod vblock;
pub mod videolaw;
