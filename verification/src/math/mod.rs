//! Readable text for MathML: AsciiMath for the reading buffer and speech for announcements.

pub mod asciimath;
pub mod fallback;
pub mod mathcat;
pub mod speech;
