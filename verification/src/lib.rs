//! A component lifecycle manager for an entity-component data store.
//!
//! Entities are tagged with the [`store::IsLoaded`] marker to say "this entity
//! should be loaded".  Each tick, the transition detector ([`detect`]) turns
//! the store's change-tracking feeds into a load-set and an unload-set, and a
//! dispatcher runs the user-supplied `load`/`unload` callbacks exactly once
//! per transition: in place for lightweight components ([`immediate`]), or
//! through a pending batch command applied under exclusive store access for
//! callbacks that need to read or write arbitrary entities ([`deferred`]).

pub mod assoc;
pub mod components;
pub mod deferred;
pub mod detect;
pub mod ids;
pub mod immediate;
pub mod loadable;
pub mod registry;
pub mod store;
