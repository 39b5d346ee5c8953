//! Virtual-filesystem layer of a freestanding kernel: the mount table with
//! its hierarchy rules, the capability traits of mounted files, and the
//! calendar timestamp that filesystems stamp their metadata with.

use vstd::prelude::*;

pub mod fs;
pub mod memory;
pub mod timestamp;

pub use timestamp::KTimestamp;

verus! {

/// Open a path on the root filesystem.
///
/// A dispatcher over the mount table with no logic of its own: it takes
/// nothing, returns nothing and changes nothing.
pub fn open() {
}

} // verus!
