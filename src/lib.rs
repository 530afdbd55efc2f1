//! Perfect mazes from a weighted randomized Kruskal algorithm.
//!
//! Each wall is weighed by the pattern of walls around it, walls are drawn
//! with probability proportional to their weights, and a drawn wall is
//! removed when the cells on its two sides are not yet connected.
//!
//! - `grid`: numbering of cells and walls on the maze lattice.
//! - `fenwick_tree`: prefix sums over the wall weights, and weighted lookup.
//! - `wall_type`: classification of walls by their neighbourhood.
//! - `partition`: connected sets of cells.
//! - `random`: the source of random draws.
//! - `generator`: the algorithm, one draw at a time.
//! - `maze`: weights per wall type, and the finished maze.
pub mod fenwick_tree;
pub mod grid;
pub mod wall_type;
pub mod partition;
pub mod random;
pub mod generator;
pub mod maze;
