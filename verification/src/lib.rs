//! A frame-stepped particle world on a fixed-point grid.
//!
//! Cells are spawned by pointer presses and walk toward the seed that lies
//! nearest to the centroid of all seeds; cells that leave the board are
//! removed, and seeds touched by a cell are consumed.
//!
//! All positions are integers: a coordinate counts grid steps, 2097152 of
//! which make one world unit. The centroid of the seeds is kept exact, as
//! sums and a count. The one rounding is that of a step to the grid, toward
//! zero, which leaves a step within a millionth of one unit in length and in
//! direction.
//!
//! - [`geometry`], [`arith`]: points, rectangles, distances, the nearest of a
//!   set of points, integer square root and division.
//! - [`attractor`]: the centroid of the seeds and the seed nearest to it.
//! - [`network`]: the displacement of a cell for one frame.
//! - [`world_board`], [`entities`], [`world`]: the board and the registry of
//!   seeds and cells.
//! - [`spawn`], [`seeds`]: how cells and seeds enter the world.
//! - [`movement`], [`collisions`], [`frame`]: the stages of a frame and the
//!   frame itself.
//! - [`ring_buffer`], [`metrics`]: the bounded history of the population counts.

pub mod arith;
pub mod attractor;
pub mod collisions;
pub mod entities;
pub mod events;
pub mod frame;
pub mod geometry;
pub mod metrics;
pub mod movement;
pub mod network;
pub mod ring_buffer;
pub mod seeds;
pub mod spawn;
pub mod world;
pub mod world_board;
