//! A game launcher's core: reading the lump directory of a WAD archive, extracting level
//! names from its metadata lumps, and tracking the one running engine session.
//!
//! - `wad`: the archive header and directory.
//! - `scan`: character classes and scanning steps shared by the text formats.
//! - `mapinfo`, `dehacked`: the metadata formats, each a fold over its text.
//! - `names`: the level-name mapping, where the first name given to a level stays.
//! - `extract`: the four stages of extraction, in order of priority.
//! - `session`: the launch check and the state of the captured engine output.
use vstd::prelude::*;

pub mod dehacked;
pub mod extract;
pub mod mapinfo;
pub mod names;
pub mod scan;
pub mod session;
pub mod text;
pub mod wad;

verus! {

} // verus!
