//! Recognition in one loop: the detector, the streaming recogniser and the boundary rules take
//! turns, and batch passes are handed to a worker as jobs.

pub mod jobs;
pub mod ring;
pub mod single;
pub mod tracker;
