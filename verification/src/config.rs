pub mod grids;
