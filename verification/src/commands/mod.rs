pub mod analyze;
pub mod export;
pub mod scan;
