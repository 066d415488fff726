//! What Pipeline promises its users, stated over the results of the functions
//! that they call.

pub mod answering;
pub mod asking;
pub mod checking;
pub mod choosing;
pub mod compiling;
pub mod complaining;
pub mod dispatching;
pub mod environment;
pub mod extracting;
pub mod finding;
pub mod installing;
pub mod keeping;
pub mod managing;
pub mod merging;
pub mod pathing;
pub mod placing;
pub mod pushing;
pub mod reading;
pub mod receiving;
pub mod removing;
pub mod resolving;
pub mod running;
pub mod searching;
pub mod selecting;
pub mod spelling;
pub mod telling;
pub mod validating;
pub mod wrappers;
