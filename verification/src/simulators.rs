pub mod incremental;

pub use incremental::Incremental;
