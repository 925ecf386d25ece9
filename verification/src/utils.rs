pub mod deadline;
pub mod plotter;

pub use deadline::Deadline;
pub use plotter::create_path_traces;
