//! Entity store and axis-aligned collision/push resolver for a 2D game,
//! with the sprite, camera and draw-order helpers that sit next to it.

pub mod camera;
pub mod entity;
pub mod geometry;
pub mod renderer;
pub mod resolve;
pub mod sprite;
pub mod store;

pub use camera::Camera;
pub use entity::{ConfigError, Entity, EntityID};
pub use geometry::{Bounds, Collider, Overlap, overlaps};
pub use renderer::{SpriteInstance, render_order};
pub use resolve::MAX_PUSH;
pub use sprite::Sprite;
pub use store::ECSManager;
