//! Decision logic of the household inventory backend: the request
//! handlers' state machines, the grouping of bundle lines, the mapping of
//! database failures to HTTP statuses, and the stored names of the enums.
pub mod item;
pub mod status;
pub mod outcome;
pub mod batch;
pub mod grouping;
pub mod bundle_write;
pub mod read;
pub mod user;
