//! Core of a concurrent HTTPS domain scanner: building the work queue,
//! turning a fetched response into a record, and the rules by which records
//! are stored, workers advance and progress is reported.

pub mod chars;
pub mod record;
pub mod store;
pub mod response;
pub mod queue;
pub mod worker;
pub mod monitor;

pub use queue::to_queue;
pub use record::ResponseData;
pub use response::to_respdata;
