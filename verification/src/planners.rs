pub mod bfs;
pub mod dijkstra;
pub mod ray_casting;
pub mod trig;

pub use bfs::BFS;
pub use dijkstra::Dijkstra;
pub use ray_casting::RayCasting;
