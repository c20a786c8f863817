//! A fixed-point grid raycaster.
//!
//! The world is a rectangular grid of square cells, each either empty or a
//! wall. A player stands at an integer world position and looks along a
//! heading. For every screen column one ray is walked cell by cell through the
//! grid until it meets a wall, and the distance to that wall decides how tall
//! the wall strip of that column is drawn.
//!
//! All arithmetic is done on integers: positions are whole world units,
//! angles are thousandths of a degree and direction components are scaled by
//! [`trig::ONE`]. Every function carries a contract over a mathematical model
//! of its arguments, and Verus proves that the code keeps it.

pub mod fixed;
pub mod grid;
pub mod trig;
pub mod ray;
pub mod player;
pub mod render;
