//! Verified core of an accessible document reader: text normalization, MathML rendering, the
//! registry of background parses, and the decisions behind its main window.

use vstd::prelude::*;

pub mod dom;
pub mod html;
pub mod locale;
pub mod math;
pub mod names;
pub mod open_as;
pub mod parse_registry;
pub mod paths;
pub mod text;
pub mod window;
pub mod xml;
pub mod xml_reading;

verus! {

} // verus!
