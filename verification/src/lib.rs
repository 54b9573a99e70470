//! Recovery of QuickTime movie files from raw byte streams.
//!
//! A movie file is a run of boxes. Where a disk or a card has lost its file
//! system, the boxes are still there: this library finds, on block
//! boundaries, the box that opens a movie file, and takes the boxes that
//! follow it for the file.
//!
//! - [`mov`] knows boxes: their headers, their types, and the box that opens
//!   a file.
//! - [`scanner`] is the engine, a state machine that is told what the stream
//!   holds and says what to write.
//! - [`stream`] states what a scan recovers from a stream of bytes.
//! - [`image`] runs the engine on a stream that is held in memory.
//! - [`config`] holds the settings of a run and names the output files.
//! - [`utils`] reads sizes such as `64k` and `100MiB`.

pub mod config;
pub mod image;
pub mod mov;
pub mod scanner;
pub mod stream;
pub mod utils;
