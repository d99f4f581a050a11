//! Reconstruction of the call hierarchy of one transaction from its flat
//! record of execution events, its positional pre-order listing, and the
//! decisions of the admin-control contract.
//!
//! * `event`, `error`: the events of a record and the faults of a record.
//! * `tree`, `positioned`: the hierarchy and its listing as mathematical
//!   values.
//! * `automaton`: the stack automaton that defines which hierarchy a record
//!   describes.
//! * `matcher`, `cursor`: the builder, the driver and the listing in
//!   executable form.
//! * `nesting`, `preorder`, `paths`: what is proved of the automaton and of
//!   listings.
//! * `admin`: who may set a contract's admin, and what a destruction does.

pub mod admin;
pub mod automaton;
pub mod cursor;
pub mod error;
pub mod event;
pub mod matcher;
pub mod nesting;
pub mod paths;
pub mod positioned;
pub mod preorder;
pub mod tree;
