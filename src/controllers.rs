//! What each request of the API does to the store and which view it answers
//! with; an `Err` is answered with an empty body.

pub mod clients;
pub mod fees;
pub mod orders;
pub mod partners;
pub mod processes;
pub mod processes_fees;
pub mod sellers;
