pub mod text;
pub mod types;
pub mod resources;
pub mod cell_table;
pub mod grid;
pub mod blueprint;
pub mod ordering;
pub mod colonist;
pub mod reservations;
pub mod stores;
pub mod assignment;
pub mod simulation;
pub mod selection;
pub mod build_state;
pub mod arrival;
pub mod step;
pub mod panel;
