pub mod bench;
pub mod report;
pub mod sort;
