//! A store of reusable shell-command templates: the store itself, the
//! placeholders of a command and their resolution, the filter over the
//! store, the selection in a list, and the state machine of an
//! interactive session. Every function is verified against its contract.

use vstd::prelude::*;

pub mod display;
pub mod filter;
pub mod hoard;
pub mod interaction;
pub mod placeholder;
pub mod selection;
pub mod template;
pub mod text;
pub mod trove;

verus! {

} // verus!
