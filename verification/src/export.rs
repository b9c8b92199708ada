//! Export of captures as partitioned tables.
pub mod arguments;
pub mod completeness;
pub mod convert;
pub mod exporter;
pub mod meaning;
pub mod partition;
pub mod rows;
