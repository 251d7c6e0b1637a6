//! Decides which open change proposals on a specification repository are
//! waiting on an editor's attention, and in what order.
//!
//! The library holds the verified logic: parsing the editor directory,
//! resolving a proposal's declared authors from its documents, building a
//! timeline of dated actions, and the review-gate decision rule. Network
//! fetching and page rendering live outside it.

use vstd::prelude::*;

pub mod documents;
pub mod driver;
pub mod editors;
pub mod gate;
pub mod identity;
pub mod mention;
pub mod text;
pub mod timeline;

verus! {

/// The role a timeline event is attributed to. A single login may act as an
/// editor in one event and as an author in another; the tag records which
/// set the identity matched, not a property of the identity itself.
#[derive(Clone, Copy, PartialEq, Eq, Debug, Structural)]
pub enum Actor {
    Author,
    Editor,
}

/// One dated action on a proposal: its creation, a qualifying editor review,
/// or a comment by a recognized identity. Times are integer timestamps;
/// only their order matters to the decision rule.
#[derive(Clone, Copy, PartialEq, Eq, Debug, Structural)]
pub struct Event {
    pub actor: Actor,
    pub when: i64,
}

} // verus!
