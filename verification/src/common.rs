pub mod text;
pub mod traits;
pub mod types;
