//! The simulation side: the body store with its selection, the schedule of
//! a physics tick, the pairs of bodies that act on each other, trails, and
//! the shapes that show a body.

pub mod engine;
pub mod pairs;
pub mod sprite;
pub mod tick;
pub mod trail;

pub use engine::{
    CollisionMode, Cursor, Report, Simulation, SimulationInput, MAX_PHYSICS_SPEED,
    MIN_PHYSICS_SPEED, NUM_OF_BODIES,
};
pub use pairs::can_pair;
pub use sprite::{shapes, Sprite, BODY_ORDER, MOMENTUM_ORDER, TRAIL_ORDER};
pub use tick::{Phase, Tick};
pub use trail::{Trail, MAX_TRAIL_LENGTH};
