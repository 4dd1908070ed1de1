mod rng;
pub mod domain;
pub mod frontier;
pub mod time_keeper;
pub mod tree_search;
pub mod chokudai;
pub mod anneal;
pub mod local_search;
pub mod grid_game;
pub mod walkers;
