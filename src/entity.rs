use vstd::prelude::*;
use crate::geometry::{Bounds, Collider, bounds_at, spec_overlaps, overlaps};
use crate::sprite::Sprite;

verus! {

/// A handle that names one entity of a store.
#[derive(Clone, Copy, Debug, PartialEq, Eq, Hash, Structural)]
pub struct EntityID(pub usize);

/// A configuration that the resolver cannot work with.
#[derive(Clone, Copy, Debug, PartialEq, Eq, Structural)]
pub enum ConfigError {
    /// A mass of zero.
    NonPositiveMass,
    /// A collider with zero width or zero height.
    DegenerateCollider,
}

/// The unit of simulation: a position, an optional collision box and the
/// flags that decide how it meets other entities.
#[derive(Clone, Debug)]
pub struct Entity {
    pub id: EntityID,
    pub position_x: i32,
    pub position_y: i32,
    pub z_order: i32,
    pub sprite: Option<Sprite>,
    pub collider: Option<Collider>,
    pub simple_collisions: bool,
    pub pushable: bool,
    pub solid: bool,
    /// Weight in integer units; only the ratio between two masses matters.
    pub mass: u32,
}

/// `p + d`, held to the range of `i32`.
pub open spec fn shifted(p: i32, d: i32) -> i32 {
    let s = p + d;
    if s > i32::MAX {
        i32::MAX
    } else if s < i32::MIN {
        i32::MIN
    } else {
        s as i32
    }
}

/// Adds a displacement to a coordinate, saturating at the ends of `i32`.
pub fn shift(p: i32, d: i32) -> (r: i32)
    ensures
        r == shifted(p, d),
{
    let s: i64 = p as i64 + d as i64;
    if s > i32::MAX as i64 {
        i32::MAX
    } else if s < i32::MIN as i64 {
        i32::MIN
    } else {
        s as i32
    }
}

/// The collider a configuration error stops: one with an empty side.
pub open spec fn degenerate(width: u32, height: u32) -> bool {
    width == 0 || height == 0
}

impl Entity {
    /// What the resolver assumes of every entity: a positive mass and a
    /// collider, if any, with two positive sides.
    pub open spec fn is_valid(&self) -> bool {
        &&& self.mass > 0
        &&& self.collider matches Some(c) ==> !degenerate(c.width, c.height)
    }

    /// The box the entity covers where it stands, if it has a collider.
    pub open spec fn spec_bounds(&self) -> Option<Bounds> {
        match self.collider {
            Some(c) => Some(bounds_at(c, self.position_x as int, self.position_y as int)),
            None => None,
        }
    }

    /// A solid, pushable entity of mass one standing at `(x, y)`, with no
    /// collider, no sprite and simple collisions off. The name is not kept.
    pub fn new(id: EntityID, _name: &str, x: i32, y: i32, z_order: i32) -> (r: Entity)
        ensures
            r.id == id,
            r.position_x == x,
            r.position_y == y,
            r.z_order == z_order,
            r.sprite.is_none(),
            r.collider.is_none(),
            !r.simple_collisions,
            r.pushable,
            r.solid,
            r.mass == 1,
            r.is_valid(),
    {
        Entity {
            id,
            position_x: x,
            position_y: y,
            z_order,
            sprite: None,
            collider: None,
            simple_collisions: false,
            pushable: true,
            solid: true,
            mass: 1,
        }
    }

    pub fn with_solid(self, solid: bool) -> (r: Entity)
        ensures
            r == (Entity { solid, ..self }),
    {
        let mut e = self;
        e.solid = solid;
        e
    }

    pub fn with_pushable(self, pushable: bool) -> (r: Entity)
        ensures
            r == (Entity { pushable, ..self }),
    {
        let mut e = self;
        e.pushable = pushable;
        e
    }

    /// Sets the mass; a mass of zero is refused.
    pub fn with_mass(self, mass: u32) -> (r: Result<Entity, ConfigError>)
        ensures
            mass == 0 <==> r == Err::<Entity, ConfigError>(ConfigError::NonPositiveMass),
            mass > 0 ==> r == Ok::<Entity, ConfigError>(Entity { mass, ..self }),
    {
        if mass == 0 {
            return Err(ConfigError::NonPositiveMass);
        }
        let mut e = self;
        e.mass = mass;
        Ok(e)
    }

    pub fn set_sprite(&mut self, sprite: Sprite)
        ensures
            *final(self) == (Entity { sprite: Some(sprite), ..*old(self) }),
    {
        self.sprite = Some(sprite);
    }

    /// Gives the entity a collider whose top-left corner sits at the offset
    /// from its position; a collider with an empty side is refused and the
    /// entity is left as it was.
    pub fn set_collider(&mut self, width: u32, height: u32, offset_x: i32, offset_y: i32) -> (r:
        Result<(), ConfigError>)
        ensures
            degenerate(width, height) <==> r == Err::<(), ConfigError>(
                ConfigError::DegenerateCollider,
            ),
            degenerate(width, height) ==> *final(self) == *old(self),
            !degenerate(width, height) ==> r is Ok && *final(self) == (Entity {
                collider: Some(Collider { width, height, offset_x, offset_y }),
                ..*old(self)
            }),
    {
        if width == 0 || height == 0 {
            return Err(ConfigError::DegenerateCollider);
        }
        self.collider = Some(Collider { width, height, offset_x, offset_y });
        Ok(())
    }

    /// Gives the entity a collider centred on its position (the offset is
    /// minus half of each side, halves rounded down).
    pub fn set_collider_centered(&mut self, width: u32, height: u32) -> (r: Result<(), ConfigError>)
        ensures
            degenerate(width, height) <==> r == Err::<(), ConfigError>(
                ConfigError::DegenerateCollider,
            ),
            degenerate(width, height) ==> *final(self) == *old(self),
            !degenerate(width, height) ==> r is Ok && *final(self) == (Entity {
                collider: Some(
                    Collider {
                        width,
                        height,
                        offset_x: -(width / 2) as i32,
                        offset_y: -(height / 2) as i32,
                    },
                ),
                ..*old(self)
            }),
    {
        let half_w: i32 = (width / 2) as i32;
        let half_h: i32 = (height / 2) as i32;
        self.set_collider(width, height, -half_w, -half_h)
    }

    /// Moves the entity by `(dx, dy)` without looking at anything else;
    /// each coordinate saturates at the ends of `i32`.
    pub fn move_entity(&mut self, dx: i32, dy: i32)
        ensures
            *final(self) == (Entity {
                position_x: shifted(old(self).position_x, dx),
                position_y: shifted(old(self).position_y, dy),
                ..*old(self)
            }),
    {
        self.position_x = shift(self.position_x, dx);
        self.position_y = shift(self.position_y, dy);
    }

    /// The box the entity covers where it stands, if it has a collider.
    pub fn get_collider_bounds(&self) -> (r: Option<Bounds>)
        ensures
            r == self.spec_bounds(),
    {
        match &self.collider {
            Some(c) => Some(c.bounds_at(self.position_x, self.position_y)),
            None => None,
        }
    }

    /// Whether both entities have colliders and their boxes overlap.
    pub fn check_collision(&self, other: &Entity) -> (r: bool)
        ensures
            r == (self.spec_bounds() is Some && other.spec_bounds() is Some && spec_overlaps(
                self.spec_bounds().unwrap(),
                other.spec_bounds().unwrap(),
            )),
    {
        match (self.get_collider_bounds(), other.get_collider_bounds()) {
            (Some(a), Some(b)) => overlaps(a, b),
            _ => false,
        }
    }
}

} // verus!
