pub mod cli;

pub use cli::parse_position;
pub use cli::Cli;
