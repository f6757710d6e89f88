//! A local note vault: listing and tree views of a directory of notes, a
//! debounced change detector, and the decision logic of a chat gateway.
use vstd::prelude::*;

pub mod chat;
pub mod error;
pub mod json;
pub mod media;
pub mod notes;
pub mod text;
pub mod tree;
pub mod vault;
pub mod watcher;

verus! {

} // verus!
