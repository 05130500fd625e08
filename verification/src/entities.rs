//! The primitive simulation objects: entities, the cannon, shots and
//! aliens.
//!
//! All coordinates, sizes, scale factors and speeds are fixed-point
//! integers counted in tenths of a pixel (see `FP_ONE`).

use vstd::prelude::*;
use vstd::arithmetic::div_mod::{lemma_div_is_ordered, lemma_div_nonincreasing, lemma_div_pos_is_pos};
use vstd::arithmetic::mul::{lemma_mul_nonnegative, lemma_mul_upper_bound};
use crate::{FP_ONE, SIZE_LIMIT};

verus! {

/// Bounds of a fixed-point product of two nonnegative bounded
/// factors.
pub proof fn lemma_fp_product(a: int, b: int, a_bound: int, b_bound: int)
    requires
        0 <= a <= a_bound,
        0 <= b <= b_bound,
    ensures
        0 <= a * b <= a_bound * b_bound,
        0 <= a * b / 10 <= a * b,
        a * b / 10 <= a_bound * b_bound / 10,
{
    lemma_mul_nonnegative(a, b);
    lemma_mul_upper_bound(a, a_bound, b, b_bound);
    lemma_div_nonincreasing(a * b, 10);
    lemma_div_pos_is_pos(a * b, 10);
    lemma_div_is_ordered(a * b, a_bound * b_bound, 10);
}

/// Minimal positioned, scaled, sized, speed-bearing simulation object.
///
/// `width` and `height` are the visual footprint of the entity; the
/// axis-aligned box used for collision is the footprint multiplied by
/// the per-axis `scale`.  `collided` is a one-shot flag, set the
/// instant a collision pass detects overlap and never cleared.
#[derive(Clone, Copy, Debug, PartialEq, Eq)]
pub struct Entity {
    pub x: i64,
    pub y: i64,
    pub width: i64,
    pub height: i64,
    pub movement_speed: i64,
    pub collided: bool,
    pub scale: (i64, i64),
}

/// All fields of `e` small enough for collision and movement
/// arithmetic: positions within `m`, footprint and scale nonnegative
/// and at most `SIZE_LIMIT`, speed at most `SIZE_LIMIT` in magnitude.
pub open spec fn entity_in_bounds(e: Entity, m: int) -> bool {
    &&& -m <= e.x <= m
    &&& -m <= e.y <= m
    &&& 0 <= e.width <= SIZE_LIMIT
    &&& 0 <= e.height <= SIZE_LIMIT
    &&& 0 <= e.scale.0 <= SIZE_LIMIT
    &&& 0 <= e.scale.1 <= SIZE_LIMIT
    &&& -SIZE_LIMIT <= e.movement_speed <= SIZE_LIMIT
}

/// Fixed-point product: `a` times `b` where one of the two carries the
/// fixed-point unit, so the raw product must be divided by `FP_ONE`.
pub fn fp_mul(a: i64, b: i64) -> (r: i64)
    requires
        0 <= a <= 1_000_000_000,
        0 <= b <= 1_000_000_000,
    ensures
        r == a * b / (FP_ONE as int),
        0 <= r <= a * b,
{
    proof {
        lemma_fp_product(a as int, b as int, 1_000_000_000, 1_000_000_000);
    }
    (((a as u64) * (b as u64)) / 10) as i64
}

impl Entity {
    /// A fresh entity; a scale of `None` means unscaled, one whole
    /// unit on both axes.
    pub fn new(
        x: i64,
        y: i64,
        width: i64,
        height: i64,
        movement_speed: i64,
        scale: Option<(i64, i64)>,
    ) -> (e: Entity)
        ensures
            e.x == x,
            e.y == y,
            e.width == width,
            e.height == height,
            e.movement_speed == movement_speed,
            e.collided == false,
            e.scale == (match scale {
                Some(s) => s,
                None => (10i64, 10i64),
            }),
    {
        Entity {
            x,
            y,
            width,
            height,
            movement_speed,
            collided: false,
            scale: match scale {
                Some(s) => s,
                None => (FP_ONE, FP_ONE),
            },
        }
    }
}

/// The player-controlled cannon: an entity plus health.  `life`
/// starts at 5 and is decremented on every hit; at or below 0 the
/// session is lost.
#[derive(Clone, Copy, Debug, PartialEq, Eq)]
pub struct Cannon {
    pub entity: Entity,
    pub size: (i64, i64),
    pub life: i32,
}

/// The shot the cannon fires: spawned just above the cannon,
/// 40% of the cannon's width in, with fixed upward speed, an
/// 18 by 18 pixel footprint and a one-half scale.
pub open spec fn cannon_shot_of(c: Cannon) -> Shot {
    Shot {
        entity: Entity {
            x: (c.entity.x + c.size.0 * 4 / 10) as i64,
            y: (c.entity.y - (c.size.1 * 2 / 10) * c.entity.scale.1 / 10) as i64,
            width: 180,
            height: 180,
            movement_speed: -50i64,
            collided: false,
            scale: (5, 5),
        },
        size: (180, 180),
    }
}

impl Cannon {
    /// A fresh cannon with a 32 by 32 pixel footprint and 5 lives.
    pub fn new(x: i64, y: i64, movement_speed: i64) -> (c: Cannon)
        ensures
            c.entity == (Entity {
                x,
                y,
                width: 320,
                height: 320,
                movement_speed,
                collided: false,
                scale: (10, 10),
            }),
            c.size == (320i64, 320i64),
            c.life == 5,
    {
        Cannon {
            entity: Entity::new(x, y, 32 * FP_ONE, 32 * FP_ONE, movement_speed, None),
            size: (32 * FP_ONE, 32 * FP_ONE),
            life: 5,
        }
    }

    /// Shift the cannon horizontally by `value`.
    pub fn move_x_axis(&mut self, value: i64)
        requires
            i64::MIN <= old(self).entity.x + value <= i64::MAX,
        ensures
            final(self).entity.x == old(self).entity.x + value,
            final(self).entity == (Entity { x: final(self).entity.x, ..old(self).entity }),
            final(self).size == old(self).size,
            final(self).life == old(self).life,
    {
        self.entity.x = self.entity.x + value;
    }

    /// The cannon's horizontal movement speed.
    pub fn get_movement_speed(&self) -> (s: i64)
        ensures
            s == self.entity.movement_speed,
    {
        self.entity.movement_speed
    }

    /// Fire: spawn a shot just above the cannon, 40% of its width
    /// in, with fixed upward speed.
    pub fn shoot(&self) -> (shot: Shot)
        requires
            0 <= self.size.0 <= SIZE_LIMIT,
            0 <= self.size.1 <= SIZE_LIMIT,
            0 <= self.entity.scale.1 <= SIZE_LIMIT,
            -1_000_000_000_000_000 <= self.entity.x <= 1_000_000_000_000_000,
            -1_000_000_000_000_000 <= self.entity.y <= 1_000_000_000_000_000,
        ensures
            shot == cannon_shot_of(*self),
    {
        let dx = fp_mul(self.size.0, 4);
        let half_height = fp_mul(self.size.1, 2);
        let dy = fp_mul(half_height, self.entity.scale.1);
        proof {
            lemma_mul_upper_bound(half_height as int, 2_000_000, self.entity.scale.1 as int, 1_000_000);
        }
        Shot::new(
            self.entity.x + dx,
            self.entity.y - dy,
            -5 * FP_ONE,
            (18 * FP_ONE, 18 * FP_ONE),
            (FP_ONE / 2, FP_ONE / 2),
        )
    }
}

/// A projectile.  The sign of the entity's `movement_speed` encodes
/// the direction: negative moves up (a cannon shot), positive moves
/// down (an alien shot).
#[derive(Clone, Copy, Debug, PartialEq, Eq)]
pub struct Shot {
    pub entity: Entity,
    pub size: (i64, i64),
}

impl Shot {
    /// A fresh shot; its visual footprint equals `size`.
    pub fn new(
        x: i64,
        y: i64,
        movement_speed: i64,
        size: (i64, i64),
        scale: (i64, i64),
    ) -> (s: Shot)
        ensures
            s.entity == (Entity {
                x,
                y,
                width: size.0,
                height: size.1,
                movement_speed,
                collided: false,
                scale,
            }),
            s.size == size,
    {
        Shot {
            entity: Entity::new(x, y, size.0, size.1, movement_speed, Some(scale)),
            size,
        }
    }
}

/// Species of an alien, deciding its base score.
#[derive(Clone, Copy, Debug, PartialEq, Eq, Structural)]
pub enum AlienSpecies {
    Soldier,
    Bug,
    Squid,
}

/// Colour variant of an alien, deciding its score multiplier.
#[derive(Clone, Copy, Debug, PartialEq, Eq, Structural)]
pub enum AlienVariant {
    Default,
    Blue,
    Pink,
    White,
}

/// Base score of a species: Bug 10, Soldier 20, Squid 30.
pub open spec fn base_score(species: AlienSpecies) -> u32 {
    match species {
        AlienSpecies::Bug => 10u32,
        AlienSpecies::Soldier => 20u32,
        AlienSpecies::Squid => 30u32,
    }
}

/// Score multiplier of a variant: Default and White plain, Pink
/// double, Blue triple.
pub open spec fn variant_multiplier(variant: AlienVariant) -> u32 {
    match variant {
        AlienVariant::Default => 1u32,
        AlienVariant::White => 1u32,
        AlienVariant::Pink => 2u32,
        AlienVariant::Blue => 3u32,
    }
}

/// The score awarded for destroying an alien of the given species and
/// variant.
pub open spec fn score_of(species: AlienSpecies, variant: AlienVariant) -> u32 {
    (base_score(species) * variant_multiplier(variant)) as u32
}

/// One alien of the formation.  `position` is its formation
/// coordinate `(row, col)`; `score` is precomputed from species and
/// variant.
#[derive(Clone, Copy, Debug, PartialEq, Eq)]
pub struct Alien {
    pub entity: Entity,
    pub size: (i64, i64),
    pub variant: AlienVariant,
    pub species: AlienSpecies,
    pub position: (u32, u32),
    pub score: u32,
}

/// The shot an alien fires: spawned just below the alien, 40% of the
/// alien's width in, with fixed downward speed, an 11 by 15 pixel
/// footprint and a three-fifths scale.
pub open spec fn alien_shot_of(a: Alien) -> Shot {
    Shot {
        entity: Entity {
            x: (a.entity.x + a.size.0 * 4 / 10) as i64,
            y: (a.entity.y + a.size.1) as i64,
            width: 110,
            height: 150,
            movement_speed: 30,
            collided: false,
            scale: (6, 6),
        },
        size: (110, 150),
    }
}

impl Alien {
    /// A fresh alien with a 32 by 32 pixel footprint; its score is
    /// the species' base score times the variant's multiplier.
    pub fn new(
        x: i64,
        y: i64,
        movement_speed: i64,
        species: AlienSpecies,
        variant: AlienVariant,
        position: (u32, u32),
    ) -> (a: Alien)
        ensures
            a.entity == (Entity {
                x,
                y,
                width: 320,
                height: 320,
                movement_speed,
                collided: false,
                scale: (10, 10),
            }),
            a.size == (320i64, 320i64),
            a.species == species,
            a.variant == variant,
            a.position == position,
            a.score == score_of(species, variant),
            a == (Alien {
                entity: (Entity {
                    x,
                    y,
                    width: 320,
                    height: 320,
                    movement_speed,
                    collided: false,
                    scale: (10, 10),
                }),
                size: (320, 320),
                variant,
                species,
                position,
                score: score_of(species, variant),
            }),
    {
        let mut score: u32 = match species {
            AlienSpecies::Bug => 10,
            AlienSpecies::Soldier => 20,
            AlienSpecies::Squid => 30,
        };
        match variant {
            AlienVariant::White => {},
            AlienVariant::Pink => {
                score = score * 2;
            },
            AlienVariant::Blue => {
                score = score * 3;
            },
            AlienVariant::Default => {},
        }
        Alien {
            entity: Entity::new(x, y, 32 * FP_ONE, 32 * FP_ONE, movement_speed, None),
            size: (32 * FP_ONE, 32 * FP_ONE),
            variant,
            species,
            position,
            score,
        }
    }

    /// Fire: spawn a shot just below the alien with fixed downward
    /// speed.
    pub fn shoot(&self) -> (shot: Shot)
        requires
            0 <= self.size.0 <= SIZE_LIMIT,
            0 <= self.size.1 <= SIZE_LIMIT,
            -1_000_000_000_000_000 <= self.entity.x <= 1_000_000_000_000_000,
            -1_000_000_000_000_000 <= self.entity.y <= 1_000_000_000_000_000,
        ensures
            shot == alien_shot_of(*self),
    {
        let dx = fp_mul(self.size.0, 4);
        Shot::new(
            self.entity.x + dx,
            self.entity.y + self.size.1,
            3 * FP_ONE,
            (11 * FP_ONE, 15 * FP_ONE),
            (6, 6),
        )
    }
}

} // verus!
