pub mod error;
pub mod file;
pub mod mapping;
pub mod segment;
pub mod utf8;

pub use error::ScatterSendError;
pub use file::File;
pub use segment::{Segment, SEGMENT_SIZE};
