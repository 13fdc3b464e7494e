pub mod bitvector;
pub mod buffer;
pub mod signals;
pub mod utils;

use vstd::prelude::*;

verus! {

/// Who owns a signal node of the configuration: the viewer (saved by it)
/// or the user's own script.
#[derive(Copy, Clone, Debug, PartialEq, Eq, Structural)]
pub enum ConfigOwner {
    Nalu,
    User,
}

} // verus!
