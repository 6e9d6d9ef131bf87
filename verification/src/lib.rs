//! The package layer of the Faber compiler: crate naming and the build
//! layout of a package, host-provider dispatch for its routes, and the
//! device route: the constructed device program, its typed wire, the host
//! descriptor, the training-plan analysis, and the prefill program's kernel
//! graph.
use vstd::prelude::*;

pub mod naming;
pub mod paths;
pub mod layout;
pub mod device;
pub mod dispatch;
pub mod search;
pub mod selection;
pub mod sorted_map;

verus! {

} // verus!
