//! Decisions and bookkeeping of a concurrent TinyPNG image compressor.
//!
//! The service compresses images for those who hold an API key, and each key is good for a number
//! of compressions a month. The modules below keep account of the keys, choose among them, keep
//! what was downloaded, and say step by step what is to be done with an image, with all images of
//! a run, and with the run itself. Files, the network and the terminal are the program's part: it
//! performs an action and hands back what the action led to.

pub mod batch;
pub mod cache;
pub mod cli;
pub mod client;
pub mod clock;
pub mod compress;
pub mod image;
pub mod keys;
pub mod state;
pub mod stats;
pub mod table;
pub mod task;
pub mod text;
