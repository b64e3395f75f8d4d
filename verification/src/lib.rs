//! Collision and reflection physics for a bouncing-ball arcade game, and
//! the rules of the game around them.
//!
//! Lengths and angles are fixed-point integers (see [`geometry::ONE`]);
//! rectangles and contact points live on the integer pixel grid.
//!
//! - [`fixed`]: sine, cosine, arctangent and square root in fixed point.
//! - [`geometry`]: angle arithmetic and the three bounces.
//! - [`rect`]: points and rectangles.
//! - [`circle`]: the circle and its collision test against a rectangle.
//! - [`reflection`]: the direction after a contact; the paddle's steering.
//! - [`ball`]: a ball's motion through a tick.
//! - [`objects`]: blocks, paddle, bonuses, watcher.
//! - [`scene`]: the tick of the whole scene.
//! - [`game`]: the score, and when the game is over.

pub mod ball;
pub mod circle;
pub mod fixed;
pub mod game;
pub mod geometry;
pub mod objects;
pub mod rect;
pub mod reflection;
pub mod scene;
