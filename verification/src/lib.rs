//! Building, checking and transforming WebVTT caption data.
//!
//! Segments of timed text are checked against the rules of the format
//! (`segment`), written as a header and cue blocks (`writer`, `builder`),
//! and transformed: merged, split, shifted, filtered, measured
//! (`transform`, `split`, `stats`), and cleaned for reading (`fillers`,
//! `repeats`, `speakers`, `confidence`, `aggregate`, `chapters`). A
//! serialized file is checked line by line (`validator`). The timestamp
//! codec is in `timestamp`, escaping in `escape`.
//!
//! Times are whole milliseconds, the resolution of the format, and text
//! is counted in characters. Each function states what it returns over
//! sequences of characters and views of the records; those statements are
//! proved, and so are the laws that tie functions together, such as that
//! parsing undoes formatting and that the validator accepts what the
//! writer writes (`agreement`).

pub mod aggregate;
pub mod agreement;
pub mod builder;
pub mod chapters;
pub mod confidence;
pub mod decimal;
pub mod error;
pub mod escape;
pub mod fillers;
pub mod letters;
pub mod lines;
pub mod marks;
pub mod repeats;
pub mod search;
pub mod segment;
pub mod speakers;
pub mod split;
pub mod stats;
pub mod text;
pub mod timestamp;
pub mod transform;
pub mod validator;
pub mod writer;
