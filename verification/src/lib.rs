//! Input binding for jobs that work through a stream line by line.
//!
//! A stage says what to do when a stream starts, for each of its lines and
//! when it ends. A run takes the stream apart into lines, decodes each line
//! as UTF-8 and fires the hooks of the stage in a fixed order.
pub mod context;
pub mod io;
pub mod lines;
pub mod recorder;
