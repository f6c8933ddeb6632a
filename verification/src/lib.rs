pub mod classify;
pub mod collect;
pub mod engine;
pub mod extract;
pub mod names;
pub mod report;
pub mod strutil;
pub mod urls;

use vstd::prelude::*;

verus! {

/// The longest file name the engine will produce, in characters.
pub const MAX_FILENAME_LENGTH: usize = 100;

} // verus!
