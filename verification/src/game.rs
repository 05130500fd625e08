//! The game session: formation kinematics, projectile lifecycle,
//! collision resolution, scoring and the game-over rule.

use vstd::prelude::*;
use crate::{POS_LIMIT, POS_SLACK, SIZE_LIMIT};
use crate::collision::boxes_overlap;
use crate::collision::overlaps;
use crate::entities::{
    Alien, AlienSpecies, AlienVariant, Cannon, Entity, Shot, alien_shot_of, cannon_shot_of,
    entity_in_bounds,
};

verus! {

/// The keys the session reacts to.
#[derive(Clone, Copy, Debug, PartialEq, Eq, Structural)]
pub enum Key {
    Left,
    Right,
    Fire,
    Restart,
}

/// The whole mutable state of one game session.
///
/// `last_aliens` is the per-frame shooter snapshot: for every column
/// that holds at least one alien, the `(row, index)` of the alien of
/// that column that was walked last, rebuilt by every formation
/// advance and cleared at the end of the frame.
pub struct Game {
    pub max_fps: u64,
    pub width: i64,
    pub height: i64,
    pub game_score: u32,
    pub cannon: Cannon,
    pub is_left_pressed: bool,
    pub is_right_pressed: bool,
    pub cannon_shots: Vec<Shot>,
    pub alien_shots: Vec<Shot>,
    pub aliens: Vec<Vec<Alien>>,
    pub aliens_movement_speed: i64,
    pub aliens_height_modifier: i64,
    pub last_aliens: Vec<(u32, (usize, usize))>,
    pub game_over: bool,
}

/// The alien grid as a sequence of rows.
pub open spec fn grid_of(g: Game) -> Seq<Seq<Alien>> {
    g.aliens@.map_values(|r: Vec<Alien>| r@)
}

/// A shot whose entity and footprint are within bounds.
pub open spec fn shot_in_bounds(s: Shot, m: int) -> bool {
    &&& entity_in_bounds(s.entity, m)
    &&& 0 <= s.size.0 <= SIZE_LIMIT
    &&& 0 <= s.size.1 <= SIZE_LIMIT
}

/// An alien whose entity and footprint are within bounds.
pub open spec fn alien_in_bounds(a: Alien, m: int) -> bool {
    &&& entity_in_bounds(a.entity, m)
    &&& 0 <= a.size.0 <= SIZE_LIMIT
    &&& 0 <= a.size.1 <= SIZE_LIMIT
}

/// Every coordinate of the session within `m` and every size, scale
/// and speed within its fixed limit.
pub open spec fn game_bounded(g: Game, m: int) -> bool {
    &&& entity_in_bounds(g.cannon.entity, m)
    &&& 0 <= g.cannon.size.0 <= SIZE_LIMIT
    &&& 0 <= g.cannon.size.1 <= SIZE_LIMIT
    &&& forall|k: int| 0 <= k < g.cannon_shots@.len() ==> shot_in_bounds(#[trigger] g.cannon_shots@[k], m)
    &&& forall|k: int| 0 <= k < g.alien_shots@.len() ==> shot_in_bounds(#[trigger] g.alien_shots@[k], m)
    &&& forall|r: int, i: int|
        0 <= r < grid_of(g).len() && 0 <= i < grid_of(g)[r].len()
            ==> alien_in_bounds(#[trigger] grid_of(g)[r][i], m)
    &&& 0 <= g.width <= m
    &&& 0 <= g.height <= m
    &&& -SIZE_LIMIT <= g.aliens_movement_speed <= SIZE_LIMIT
    &&& 0 <= g.aliens_height_modifier <= SIZE_LIMIT
}

/// Number of aliens in the grid.
pub open spec fn grid_count(gr: Seq<Seq<Alien>>) -> int
    decreases gr.len(),
{
    if gr.len() == 0 {
        0
    } else {
        grid_count(gr.drop_last()) + gr.last().len()
    }
}

/// Sum of the scores of a row of aliens.
pub open spec fn row_score(row: Seq<Alien>) -> int
    decreases row.len(),
{
    if row.len() == 0 {
        0
    } else {
        row_score(row.drop_last()) + row.last().score
    }
}

/// Sum of the scores of all aliens in the grid.
pub open spec fn grid_score(gr: Seq<Seq<Alien>>) -> int
    decreases gr.len(),
{
    if gr.len() == 0 {
        0
    } else {
        grid_score(gr.drop_last()) + row_score(gr.last())
    }
}

/// The sweep speed has room to absorb the speed-up of destroying
/// every remaining alien without leaving its limit.
pub open spec fn speed_headroom(g: Game) -> bool {
    (if g.aliens_movement_speed >= 0 {
        g.aliens_movement_speed as int
    } else {
        -(g.aliens_movement_speed as int)
    }) + 2 * grid_count(grid_of(g)) <= SIZE_LIMIT
}

/// The session score has room to absorb the scores of every
/// remaining alien without overflowing.
pub open spec fn score_headroom(g: Game) -> bool {
    g.game_score + grid_score(grid_of(g)) <= u32::MAX
}

/// A well-formed session: bounded by `POS_LIMIT` with speed and
/// score headroom.  Every per-frame step expects this; an embedding
/// loop is expected to re-check it each frame and treat a failure as
/// a fatal internal invariant violation.
pub open spec fn game_wf(g: Game) -> bool {
    &&& game_bounded(g, POS_LIMIT as int)
    &&& speed_headroom(g)
    &&& score_headroom(g)
}

/// A Soldier/Default alien of the fixed opening formation.
pub open spec fn dummy_soldier(x: i64, y: i64, row: u32, col: u32) -> Alien {
    Alien {
        entity: Entity {
            x,
            y,
            width: 320,
            height: 320,
            movement_speed: 10,
            collided: false,
            scale: (10, 10),
        },
        size: (320, 320),
        species: AlienSpecies::Soldier,
        variant: AlienVariant::Default,
        position: (row, col),
        score: 20,
    }
}

/// The fixed opening formation: two rows of Soldier/Default aliens.
pub open spec fn dummy_grid() -> Seq<Seq<Alien>> {
    seq![
        seq![
            dummy_soldier(640, 640, 0, 0),
            dummy_soldier(960, 640, 0, 1),
            dummy_soldier(5760, 640, 0, 10),
        ],
        seq![dummy_soldier(640, 1280, 1, 1), dummy_soldier(5760, 1280, 1, 10)],
    ]
}

/// Build the opening formation.
pub fn get_dummy_aliens() -> (grid: Vec<Vec<Alien>>)
    ensures
        grid@.map_values(|r: Vec<Alien>| r@) == dummy_grid(),
{
    let row0 = vec![
        Alien::new(640, 640, 10, AlienSpecies::Soldier, AlienVariant::Default, (0, 0)),
        Alien::new(960, 640, 10, AlienSpecies::Soldier, AlienVariant::Default, (0, 1)),
        Alien::new(5760, 640, 10, AlienSpecies::Soldier, AlienVariant::Default, (0, 10)),
    ];
    let row1 = vec![
        Alien::new(640, 1280, 10, AlienSpecies::Soldier, AlienVariant::Default, (1, 1)),
        Alien::new(5760, 1280, 10, AlienSpecies::Soldier, AlienVariant::Default, (1, 10)),
    ];
    let grid = vec![row0, row1];
    proof {
        let m = grid@.map_values(|r: Vec<Alien>| r@);
        assert(grid@.len() == 2);
        assert(grid@[0] == row0);
        assert(grid@[1] == row1);
        assert(row0@.len() == 3);
        assert(row0@[0] == dummy_soldier(640, 640, 0, 0));
        assert(row0@[1] == dummy_soldier(960, 640, 0, 1));
        assert(row0@[2] == dummy_soldier(5760, 640, 0, 10));
        assert(row1@[0] == dummy_soldier(640, 1280, 1, 1));
        assert(row1@[1] == dummy_soldier(5760, 1280, 1, 10));
        assert(m[0] =~= dummy_grid()[0]);
        assert(m[1] =~= dummy_grid()[1]);
        assert(m =~= dummy_grid());
    }
    grid
}

/// Where the cannon's x ends up after applying the pressed movement
/// flags: each direction moves by the cannon's speed unless the move
/// would leave the field.
pub open spec fn cannon_moved_x(g: Game) -> int {
    let sp = g.cannon.entity.movement_speed as int;
    let x0 = g.cannon.entity.x as int;
    let x1 = if g.is_left_pressed && x0 - sp >= 0 {
        x0 - sp
    } else {
        x0
    };
    if g.is_right_pressed && x1 + sp <= g.width - g.cannon.size.0 {
        x1 + sp
    } else {
        x1
    }
}

/// A cannon shot is kept while it has not fully left through the top
/// of the field and has not collided.
pub open spec fn keep_cannon_shot(s: Shot) -> bool {
    s.entity.y + s.size.1 > 0 && !s.entity.collided
}

/// An alien shot is kept while it has not fully left through the
/// bottom of the field and has not collided.  Together with
/// `keep_cannon_shot` this is deliberately asymmetric: each kind of
/// shot is culled only past the edge it travels towards.
pub open spec fn keep_alien_shot(s: Shot, field_height: int) -> bool {
    s.entity.y + s.size.1 <= field_height && !s.entity.collided
}

/// The front-most surviving row (the last non-empty row of the grid)
/// holds an alien whose bottom edge is below the cannon's top.
pub open spec fn front_row_reaches(gr: Seq<Seq<Alien>>, cannon_y: int) -> bool {
    exists|r: int|
        0 <= r < gr.len() && #[trigger] gr[r].len() > 0 && (forall|r2: int|
            r < r2 < gr.len() ==> #[trigger] gr[r2].len() == 0) && (exists|i: int|
            0 <= i < gr[r].len() && #[trigger] gr[r][i].entity.y + gr[r][i].size.1 > cannon_y)
}


/// The cannon shots that survive a cull, in order.
pub open spec fn cull_cannon_shots(s: Seq<Shot>) -> Seq<Shot>
    decreases s.len(),
{
    if s.len() == 0 {
        Seq::empty()
    } else {
        let rest = cull_cannon_shots(s.drop_last());
        if keep_cannon_shot(s.last()) {
            rest.push(s.last())
        } else {
            rest
        }
    }
}

/// The alien shots that survive a cull, in order.
pub open spec fn cull_alien_shots(s: Seq<Shot>, field_height: int) -> Seq<Shot>
    decreases s.len(),
{
    if s.len() == 0 {
        Seq::empty()
    } else {
        let rest = cull_alien_shots(s.drop_last(), field_height);
        if keep_alien_shot(s.last(), field_height) {
            rest.push(s.last())
        } else {
            rest
        }
    }
}

/// One forward step of `cull_cannon_shots`.
pub proof fn lemma_cull_cannon_push(s: Seq<Shot>, x: Shot)
    ensures
        cull_cannon_shots(s.push(x)) == (if keep_cannon_shot(x) {
            cull_cannon_shots(s).push(x)
        } else {
            cull_cannon_shots(s)
        }),
{
    assert(s.push(x).drop_last() =~= s);
    assert(s.push(x).last() == x);
}

/// One forward step of `cull_alien_shots`.
pub proof fn lemma_cull_alien_push(s: Seq<Shot>, x: Shot, field_height: int)
    ensures
        cull_alien_shots(s.push(x), field_height) == (if keep_alien_shot(x, field_height) {
            cull_alien_shots(s, field_height).push(x)
        } else {
            cull_alien_shots(s, field_height)
        }),
{
    assert(s.push(x).drop_last() =~= s);
    assert(s.push(x).last() == x);
}

/// Every surviving cannon shot satisfies the keep condition, and a
/// list that already satisfies it everywhere is left whole.
pub proof fn lemma_cull_cannon_complete(s: Seq<Shot>)
    requires
        forall|i: int| 0 <= i < s.len() ==> keep_cannon_shot(#[trigger] s[i]),
    ensures
        cull_cannon_shots(s) == s,
    decreases s.len(),
{
    if s.len() > 0 {
        lemma_cull_cannon_complete(s.drop_last());
        assert(cull_cannon_shots(s.drop_last()).push(s.last()) =~= s);
    }
}

/// As `lemma_cull_cannon_complete`, for alien shots.
pub proof fn lemma_cull_alien_complete(s: Seq<Shot>, field_height: int)
    requires
        forall|i: int| 0 <= i < s.len() ==> keep_alien_shot(#[trigger] s[i], field_height),
    ensures
        cull_alien_shots(s, field_height) == s,
    decreases s.len(),
{
    if s.len() > 0 {
        lemma_cull_alien_complete(s.drop_last(), field_height);
        assert(cull_alien_shots(s.drop_last(), field_height).push(s.last()) =~= s);
    }
}

/// Every element the cull keeps satisfies its keep condition.
pub proof fn lemma_cull_keeps_only_kept(s: Seq<Shot>, field_height: int)
    ensures
        forall|i: int| 0 <= i < cull_cannon_shots(s).len()
            ==> keep_cannon_shot(#[trigger] cull_cannon_shots(s)[i]),
        forall|i: int| 0 <= i < cull_alien_shots(s, field_height).len()
            ==> keep_alien_shot(#[trigger] cull_alien_shots(s, field_height)[i], field_height),
    decreases s.len(),
{
    if s.len() > 0 {
        lemma_cull_keeps_only_kept(s.drop_last(), field_height);
        let rest_c = cull_cannon_shots(s.drop_last());
        assert forall|i: int| 0 <= i < cull_cannon_shots(s).len() implies keep_cannon_shot(
            #[trigger] cull_cannon_shots(s)[i],
        ) by {
            if keep_cannon_shot(s.last()) {
                assert(cull_cannon_shots(s) == rest_c.push(s.last()));
                if i < rest_c.len() {
                    assert(cull_cannon_shots(s)[i] == rest_c[i]);
                } else {
                    assert(cull_cannon_shots(s)[i] == s.last());
                }
            } else {
                assert(cull_cannon_shots(s) == rest_c);
            }
        }
        let rest_a = cull_alien_shots(s.drop_last(), field_height);
        assert forall|i: int| 0 <= i < cull_alien_shots(s, field_height).len() implies keep_alien_shot(
            #[trigger] cull_alien_shots(s, field_height)[i],
            field_height,
        ) by {
            if keep_alien_shot(s.last(), field_height) {
                assert(cull_alien_shots(s, field_height) == rest_a.push(s.last()));
                if i < rest_a.len() {
                    assert(cull_alien_shots(s, field_height)[i] == rest_a[i]);
                } else {
                    assert(cull_alien_shots(s, field_height)[i] == s.last());
                }
            } else {
                assert(cull_alien_shots(s, field_height) == rest_a);
            }
        }
    }
}

/// Culling is idempotent: culling the shot lists a second time, with
/// no new collisions or movement in between, removes nothing.
pub proof fn lemma_cull_idempotent(cannon_shots: Seq<Shot>, alien_shots: Seq<Shot>, field_height: int)
    ensures
        cull_cannon_shots(cull_cannon_shots(cannon_shots)) == cull_cannon_shots(cannon_shots),
        cull_alien_shots(cull_alien_shots(alien_shots, field_height), field_height)
            == cull_alien_shots(alien_shots, field_height),
{
    lemma_cull_keeps_only_kept(cannon_shots, field_height);
    lemma_cull_keeps_only_kept(alien_shots, field_height);
    lemma_cull_cannon_complete(cull_cannon_shots(cannon_shots));
    lemma_cull_alien_complete(cull_alien_shots(alien_shots, field_height), field_height);
}

impl Game {
    /// Apply the held movement keys to the cannon, clamped at the
    /// field's edges.
    pub fn move_cannon(&mut self)
        requires
            game_bounded(*old(self), POS_SLACK as int),
        ensures
            final(self).cannon.entity.x == cannon_moved_x(*old(self)),
            *final(self) == (Game {
                cannon: (Cannon {
                    entity: (Entity { x: final(self).cannon.entity.x, ..old(self).cannon.entity }),
                    ..old(self).cannon
                }),
                ..*old(self)
            }),
    {
        if self.is_left_pressed {
            let sp = self.cannon.get_movement_speed();
            let mut movement_value = -sp;
            if self.cannon.entity.x - sp < 0 {
                movement_value = 0;
            }
            self.cannon.move_x_axis(movement_value);
        }
        if self.is_right_pressed {
            let sp = self.cannon.get_movement_speed();
            let mut movement_value = sp;
            if self.cannon.entity.x + movement_value > self.width - self.cannon.size.0 {
                movement_value = 0;
            }
            self.cannon.move_x_axis(movement_value);
        }
    }

    /// React to a key being pressed: the movement keys latch their
    /// flag, `Fire` spawns a cannon shot, `Restart` asks the caller
    /// to begin a fresh session.
    pub fn handle_press_keyboard(&mut self, key: Key) -> (restart: bool)
        requires
            game_bounded(*old(self), POS_SLACK as int),
        ensures
            restart == (key == Key::Restart),
            key == Key::Left ==> *final(self) == (Game { is_left_pressed: true, ..*old(self) }),
            key == Key::Right ==> *final(self) == (Game { is_right_pressed: true, ..*old(self) }),
            key == Key::Restart ==> *final(self) == *old(self),
            key == Key::Fire ==> final(self).cannon_shots@ == old(self).cannon_shots@.push(
                cannon_shot_of(old(self).cannon),
            ) && *final(self) == (Game { cannon_shots: final(self).cannon_shots, ..*old(self) }),
    {
        match key {
            Key::Right => {
                self.is_right_pressed = true;
                false
            },
            Key::Left => {
                self.is_left_pressed = true;
                false
            },
            Key::Restart => true,
            Key::Fire => {
                let shot = self.cannon.shoot();
                self.cannon_shots.push(shot);
                false
            },
        }
    }

    /// React to a key being released: the movement keys clear their
    /// flag; the other keys change nothing.
    pub fn handle_release_keyboard(&mut self, key: Key)
        ensures
            key == Key::Left ==> *final(self) == (Game { is_left_pressed: false, ..*old(self) }),
            key == Key::Right ==> *final(self) == (Game { is_right_pressed: false, ..*old(self) }),
            key == Key::Fire || key == Key::Restart ==> *final(self) == *old(self),
    {
        match key {
            Key::Right => {
                self.is_right_pressed = false;
            },
            Key::Left => {
                self.is_left_pressed = false;
            },
            _ => {},
        }
    }

    /// Drop the shots that are done: cannon shots that left through
    /// the top or collided, alien shots that left through the bottom
    /// or collided.
    pub fn cull_shots(&mut self)
        requires
            game_bounded(*old(self), POS_SLACK as int),
        ensures
            final(self).cannon_shots@ == cull_cannon_shots(old(self).cannon_shots@),
            final(self).alien_shots@ == cull_alien_shots(
                old(self).alien_shots@,
                old(self).height as int,
            ),
            *final(self) == (Game {
                cannon_shots: final(self).cannon_shots,
                alien_shots: final(self).alien_shots,
                ..*old(self)
            }),
    {
        let ghost g0 = *self;
        let mut kept: Vec<Shot> = Vec::new();
        let mut i: usize = 0;
        while i < self.cannon_shots.len()
            invariant
                i <= self.cannon_shots@.len(),
                *self == g0,
                game_bounded(*self, POS_SLACK as int),
                kept@ == cull_cannon_shots(self.cannon_shots@.take(i as int)),
                forall|k: int| 0 <= k < kept@.len() ==> shot_in_bounds(#[trigger] kept@[k], POS_SLACK as int),
            decreases self.cannon_shots@.len() - i,
        {
            let s = self.cannon_shots[i];
            proof {
                lemma_cull_cannon_push(self.cannon_shots@.take(i as int), s);
                assert(self.cannon_shots@.take(i as int).push(s) =~= self.cannon_shots@.take(
                    i as int + 1,
                ));
            }
            if s.entity.y + s.size.1 > 0 && !s.entity.collided {
                kept.push(s);
            }
            i += 1;
        }
        proof {
            assert(self.cannon_shots@.take(self.cannon_shots@.len() as int) =~= self.cannon_shots@);
        }
        self.cannon_shots = kept;
        proof {
            assert(grid_of(*self) == grid_of(g0));
            assert(game_bounded(*self, POS_SLACK as int));
        }

        let ghost g1 = *self;
        let mut kept: Vec<Shot> = Vec::new();
        let mut i: usize = 0;
        while i < self.alien_shots.len()
            invariant
                i <= self.alien_shots@.len(),
                *self == g1,
                game_bounded(*self, POS_SLACK as int),
                kept@ == cull_alien_shots(self.alien_shots@.take(i as int), self.height as int),
                forall|k: int| 0 <= k < kept@.len() ==> shot_in_bounds(#[trigger] kept@[k], POS_SLACK as int),
            decreases self.alien_shots@.len() - i,
        {
            let s = self.alien_shots[i];
            proof {
                lemma_cull_alien_push(self.alien_shots@.take(i as int), s, self.height as int);
                assert(self.alien_shots@.take(i as int).push(s) =~= self.alien_shots@.take(
                    i as int + 1,
                ));
            }
            if s.entity.y + s.size.1 <= self.height && !s.entity.collided {
                kept.push(s);
            }
            i += 1;
        }
        proof {
            assert(self.alien_shots@.take(self.alien_shots@.len() as int) =~= self.alien_shots@);
        }
        self.alien_shots = kept;
    }

    /// End of the frame: clear the shooter snapshot and decide the
    /// game-over conditions — the cannon out of life, or the
    /// front-most surviving row down at the cannon's height.
    pub fn finish_frame(&mut self)
        requires
            game_bounded(*old(self), POS_SLACK as int),
        ensures
            final(self).game_over == (old(self).game_over || old(self).cannon.life <= 0
                || front_row_reaches(grid_of(*old(self)), old(self).cannon.entity.y as int)),
            final(self).last_aliens@ == Seq::<(u32, (usize, usize))>::empty(),
            *final(self) == (Game {
                game_over: final(self).game_over,
                last_aliens: final(self).last_aliens,
                ..*old(self)
            }),
    {
        self.last_aliens = Vec::new();
        if self.cannon.life <= 0 {
            self.game_over = true;
        }
        proof {
            assert(grid_of(*self) == grid_of(*old(self)));
            assert(game_bounded(*self, POS_SLACK as int));
        }
        let ghost gr = grid_of(*self);
        let ghost g0 = *self;
        let mut front: usize = 0;
        let mut found_row = false;
        let mut r: usize = 0;
        while r < self.aliens.len()
            invariant
                *self == g0,
                r <= gr.len(),
                gr == grid_of(*self),
                gr.len() == self.aliens@.len(),
                !found_row ==> forall|r2: int| 0 <= r2 < r ==> #[trigger] gr[r2].len() == 0,
                found_row ==> front < r && gr[front as int].len() > 0 && (forall|r2: int|
                    front < r2 < r ==> #[trigger] gr[r2].len() == 0),
            decreases self.aliens@.len() - r,
        {
            if self.aliens[r].len() > 0 {
                front = r;
                found_row = true;
            }
            r += 1;
        }
        if found_row {
            let row = &self.aliens[front];
            let cy = self.cannon.entity.y;
            let mut hit = false;
            let mut i: usize = 0;
            while i < row.len()
                invariant
                    *self == g0,
                    i <= row@.len(),
                    row@ == grid_of(*self)[front as int],
                    front < grid_of(*self).len(),
                    game_bounded(*self, POS_SLACK as int),
                    cy == self.cannon.entity.y,
                    hit == (exists|j: int|
                        0 <= j < i && #[trigger] row@[j].entity.y + row@[j].size.1 > cy),
                decreases row@.len() - i,
            {
                if row[i].entity.y + row[i].size.1 > cy {
                    hit = true;
                }
                i += 1;
            }
            if hit {
                self.game_over = true;
            }
            proof {
                if hit {
                    assert(front_row_reaches(gr, cy as int));
                } else {
                    assert(forall|r2: int|
                        0 <= r2 < gr.len() && #[trigger] gr[r2].len() > 0 && (forall|r3: int|
                            r2 < r3 < gr.len() ==> #[trigger] gr[r3].len() == 0) ==> r2 == front);
                    assert(!front_row_reaches(gr, cy as int));
                }
            }
        } else {
            proof {
                assert(!front_row_reaches(gr, self.cannon.entity.y as int));
            }
        }
    }
}

impl Default for Game {
    /// The opening state of a session: a 640 by 480 field at 60
    /// frames a second, the cannon low on the left with 5 lives, the
    /// fixed opening formation, no shots, score 0.
    fn default() -> (g: Game)
        ensures
            g.max_fps == 60,
            g.width == 6400,
            g.height == 4800,
            g.game_score == 0,
            g.cannon.entity == (Entity {
                x: 0,
                y: 3800,
                width: 320,
                height: 320,
                movement_speed: 10,
                collided: false,
                scale: (10, 10),
            }),
            g.cannon.size == (320i64, 320i64),
            g.cannon.life == 5,
            !g.is_left_pressed,
            !g.is_right_pressed,
            g.cannon_shots@ == Seq::<Shot>::empty(),
            g.alien_shots@ == Seq::<Shot>::empty(),
            grid_of(g) == dummy_grid(),
            g.aliens_movement_speed == 20,
            g.aliens_height_modifier == 5,
            g.last_aliens@ == Seq::<(u32, (usize, usize))>::empty(),
            !g.game_over,
            game_wf(g),
    {
        let width: i64 = 6400;
        let height: i64 = 4800;
        let cannon = Cannon::new(0, height - 1000, 10);
        let g = Game {
            max_fps: 60,
            width,
            height,
            game_score: 0,
            cannon,
            is_left_pressed: false,
            is_right_pressed: false,
            cannon_shots: Vec::new(),
            alien_shots: Vec::new(),
            aliens: get_dummy_aliens(),
            aliens_movement_speed: 20,
            aliens_height_modifier: 5,
            last_aliens: Vec::new(),
            game_over: false,
        };
        proof {
            reveal_with_fuel(grid_count, 4);
            reveal_with_fuel(grid_score, 4);
            reveal_with_fuel(row_score, 5);
            assert(grid_of(g) == dummy_grid());
            assert(dummy_grid().drop_last() =~= seq![dummy_grid()[0]]);
            assert(seq![dummy_grid()[0]].drop_last() =~= Seq::<Seq<Alien>>::empty());
            assert(grid_count(dummy_grid()) == 5);
            assert(grid_score(dummy_grid()) == 100);
        }
        g
    }
}


/// An alien shifted horizontally by the sweep speed.
pub open spec fn alien_moved(a: Alien, s: int) -> Alien {
    Alien { entity: (Entity { x: (a.entity.x + s) as i64, ..a.entity }), ..a }
}

/// An alien dropped by the height modifier times its own footprint
/// height.
pub open spec fn alien_dropped(a: Alien, hm: int) -> Alien {
    Alien { entity: (Entity { y: (a.entity.y + hm * a.size.1 / 10) as i64, ..a.entity }), ..a }
}

/// The whole grid shifted horizontally.
pub open spec fn grid_moved(gr: Seq<Seq<Alien>>, s: int) -> Seq<Seq<Alien>> {
    Seq::new(gr.len(), |r: int| Seq::new(gr[r].len(), |i: int| alien_moved(gr[r][i], s)))
}

/// The whole grid dropped one step.
pub open spec fn grid_dropped(gr: Seq<Seq<Alien>>, hm: int) -> Seq<Seq<Alien>> {
    Seq::new(gr.len(), |r: int| Seq::new(gr[r].len(), |i: int| alien_dropped(gr[r][i], hm)))
}

/// Some alien's right edge, advanced once more by the sweep speed,
/// would reach or pass the right side of the field.
pub open spec fn hits_right(gr: Seq<Seq<Alien>>, s: int, w: int) -> bool {
    exists|r: int, i: int|
        0 <= r < gr.len() && 0 <= i < gr[r].len() && #[trigger] gr[r][i].entity.x + gr[r][i].size.0
            + s >= w
}

/// Some alien, advanced once more by the (negative) sweep speed,
/// would reach or pass the left side of the field.
pub open spec fn hits_left(gr: Seq<Seq<Alien>>, s: int) -> bool {
    exists|r: int, i: int|
        0 <= r < gr.len() && 0 <= i < gr[r].len() && #[trigger] gr[r][i].entity.x + s <= 0
}

/// One formation advance: every alien moves by the sweep speed; then
/// against each side of the field in turn, if the sweep heads that
/// way and the already-moved formation would cross the side on its
/// next step, the sweep is reversed and every alien drops by the
/// height modifier times its own height.
pub open spec fn formation_advanced(gr: Seq<Seq<Alien>>, s: i64, hm: i64, w: i64) -> (
    Seq<Seq<Alien>>,
    i64,
) {
    let moved = grid_moved(gr, s as int);
    let flip_right = s > 0 && hits_right(moved, s as int, w as int);
    let gr1 = if flip_right {
        grid_dropped(moved, hm as int)
    } else {
        moved
    };
    let s1 = if flip_right {
        (-(s as int)) as i64
    } else {
        s
    };
    let flip_left = s1 < 0 && hits_left(gr1, s1 as int);
    let gr2 = if flip_left {
        grid_dropped(gr1, hm as int)
    } else {
        gr1
    };
    let s2 = if flip_left {
        (-(s1 as int)) as i64
    } else {
        s1
    };
    (gr2, s2)
}

/// `(r2, i2)` is walked strictly before `(r, i)` when the grid is
/// walked row by row.
pub open spec fn lex_before(r2: int, i2: int, r: int, i: int) -> bool {
    r2 < r || (r2 == r && i2 < i)
}

/// One snapshot entry is sound for the part of the grid walked
/// before `(r, i)`: it points at a real alien of its column, and no
/// later-walked alien of that column precedes `(r, i)`.
pub open spec fn snap_entry_ok_upto(
    gr: Seq<Seq<Alien>>,
    c: u32,
    rr: int,
    ii: int,
    r: int,
    i: int,
) -> bool {
    &&& 0 <= rr < gr.len()
    &&& 0 <= ii < gr[rr].len()
    &&& lex_before(rr, ii, r, i)
    &&& gr[rr][ii].position.1 == c
    &&& forall|r2: int, i2: int|
        0 <= r2 < gr.len() && 0 <= i2 < gr[r2].len() && lex_before(r2, i2, r, i)
            && #[trigger] gr[r2][i2].position.1 == c ==> lex_before(r2, i2, rr, ii) || (r2 == rr
            && i2 == ii)
}

/// The snapshot is exactly the last-write-wins column map of the
/// part of the grid walked before `(r, i)`: sound entries, every
/// walked column present, no column twice.
pub open spec fn snapshot_ok_upto(
    snap: Seq<(u32, (usize, usize))>,
    gr: Seq<Seq<Alien>>,
    r: int,
    i: int,
) -> bool {
    &&& forall|k: int|
        0 <= k < snap.len() ==> snap_entry_ok_upto(
            gr,
            (#[trigger] snap[k]).0,
            snap[k].1.0 as int,
            snap[k].1.1 as int,
            r,
            i,
        )
    &&& forall|r2: int, i2: int|
        0 <= r2 < gr.len() && 0 <= i2 < gr[r2].len() && lex_before(r2, i2, r, i) ==> exists|k: int|
            0 <= k < snap.len() && (#[trigger] snap[k]).0 == gr[r2][i2].position.1
    &&& forall|k1: int, k2: int|
        0 <= k1 < snap.len() && 0 <= k2 < snap.len() && (#[trigger] snap[k1]).0 == (
        #[trigger] snap[k2]).0 ==> k1 == k2
}

/// The snapshot is the last-write-wins column map of the whole grid.
pub open spec fn snapshot_ok(snap: Seq<(u32, (usize, usize))>, gr: Seq<Seq<Alien>>) -> bool {
    snapshot_ok_upto(snap, gr, gr.len() as int, 0)
}

/// Walking past the end of one row is the same point of the walk as
/// the start of the next row.
proof fn lemma_snapshot_row_end(snap: Seq<(u32, (usize, usize))>, gr: Seq<Seq<Alien>>, r: int)
    requires
        0 <= r < gr.len(),
        snapshot_ok_upto(snap, gr, r, gr[r].len() as int),
    ensures
        snapshot_ok_upto(snap, gr, r + 1, 0),
{
    let len_r = gr[r].len() as int;
    assert forall|k: int| 0 <= k < snap.len() implies snap_entry_ok_upto(
        gr,
        (#[trigger] snap[k]).0,
        snap[k].1.0 as int,
        snap[k].1.1 as int,
        r + 1,
        0,
    ) by {
        assert(snap_entry_ok_upto(gr, snap[k].0, snap[k].1.0 as int, snap[k].1.1 as int, r, len_r));
        assert forall|r2: int, i2: int|
            0 <= r2 < gr.len() && 0 <= i2 < gr[r2].len() && lex_before(r2, i2, r + 1, 0)
                && (#[trigger] gr[r2][i2]).position.1 == snap[k].0 implies lex_before(
            r2,
            i2,
            snap[k].1.0 as int,
            snap[k].1.1 as int,
        ) || (r2 == snap[k].1.0 as int && i2 == snap[k].1.1 as int) by {
            assert(lex_before(r2, i2, r, len_r));
        }
    }
    assert forall|r2: int, i2: int| #![trigger lex_before(r2, i2, r + 1, 0)]
        0 <= r2 < gr.len() && 0 <= i2 < gr[r2].len() && lex_before(r2, i2, r + 1, 0) implies exists|
        k: int|
        0 <= k < snap.len() && (#[trigger] snap[k]).0 == gr[r2][i2].position.1 by {
        assert(lex_before(r2, i2, r, len_r));
        assert(exists|k: int|
            0 <= k < snap.len() && (#[trigger] snap[k]).0 == gr[r2][i2].position.1);
    }
}

/// Relies on rand::random_range over `0..n`: a uniformly random
/// index below `n`; the range is non-empty so the call cannot panic.
#[verifier::external_body]
fn random_below(n: usize) -> (r: usize)
    requires
        n >= 1,
    ensures
        r < n,
{
    rand::random_range(0..n)
}

impl Game {
    /// Shift every alien horizontally by the current sweep speed.
    fn move_rows(&mut self)
        requires
            game_bounded(*old(self), POS_SLACK as int),
        ensures
            grid_of(*final(self)) == grid_moved(
                grid_of(*old(self)),
                old(self).aliens_movement_speed as int,
            ),
            *final(self) == (Game { aliens: final(self).aliens, ..*old(self) }),
    {
        let ghost g0 = *self;
        let s = self.aliens_movement_speed;
        let mut new_grid: Vec<Vec<Alien>> = Vec::new();
        let mut r: usize = 0;
        while r < self.aliens.len()
            invariant
                *self == g0,
                game_bounded(*self, POS_SLACK as int),
                s == self.aliens_movement_speed,
                r <= self.aliens@.len(),
                new_grid@.len() == r,
                forall|r2: int| 0 <= r2 < r ==> (#[trigger] new_grid@[r2])@.len() == grid_of(
                    g0,
                )[r2].len(),
                forall|r2: int, i2: int|
                    0 <= r2 < r && 0 <= i2 < grid_of(g0)[r2].len() ==> (#[trigger] new_grid@[r2]@[i2])
                        == alien_moved(grid_of(g0)[r2][i2], s as int),
            decreases self.aliens@.len() - r,
        {
            let row = &self.aliens[r];
            let mut new_row: Vec<Alien> = Vec::new();
            let mut i: usize = 0;
            while i < row.len()
                invariant
                    *self == g0,
                    game_bounded(*self, POS_SLACK as int),
                    s == self.aliens_movement_speed,
                    r < self.aliens@.len(),
                    row@ == grid_of(g0)[r as int],
                    i <= row@.len(),
                    new_row@.len() == i,
                    forall|i2: int|
                        0 <= i2 < i ==> (#[trigger] new_row@[i2]) == alien_moved(
                            grid_of(g0)[r as int][i2],
                            s as int,
                        ),
                decreases row@.len() - i,
            {
                let a = row[i];
                let moved = Alien { entity: Entity { x: a.entity.x + s, ..a.entity }, ..a };
                new_row.push(moved);
                i += 1;
            }
            new_grid.push(new_row);
            r += 1;
        }
        self.aliens = new_grid;
        proof {
            assert forall|r2: int| 0 <= r2 < grid_of(*self).len() implies grid_of(*self)[r2]
                =~= grid_moved(grid_of(g0), s as int)[r2] by {}
            assert(grid_of(*self) =~= grid_moved(grid_of(g0), s as int));
        }
    }

    /// Drop every alien by the height modifier times its own height.
    fn drop_rows(&mut self)
        requires
            game_bounded(*old(self), POS_SLACK as int),
        ensures
            grid_of(*final(self)) == grid_dropped(
                grid_of(*old(self)),
                old(self).aliens_height_modifier as int,
            ),
            *final(self) == (Game { aliens: final(self).aliens, ..*old(self) }),
    {
        let ghost g0 = *self;
        let hm = self.aliens_height_modifier;
        let mut new_grid: Vec<Vec<Alien>> = Vec::new();
        let mut r: usize = 0;
        while r < self.aliens.len()
            invariant
                *self == g0,
                game_bounded(*self, POS_SLACK as int),
                hm == self.aliens_height_modifier,
                r <= self.aliens@.len(),
                new_grid@.len() == r,
                forall|r2: int| 0 <= r2 < r ==> (#[trigger] new_grid@[r2])@.len() == grid_of(
                    g0,
                )[r2].len(),
                forall|r2: int, i2: int|
                    0 <= r2 < r && 0 <= i2 < grid_of(g0)[r2].len() ==> (#[trigger] new_grid@[r2]@[i2])
                        == alien_dropped(grid_of(g0)[r2][i2], hm as int),
            decreases self.aliens@.len() - r,
        {
            let row = &self.aliens[r];
            let mut new_row: Vec<Alien> = Vec::new();
            let mut i: usize = 0;
            while i < row.len()
                invariant
                    *self == g0,
                    game_bounded(*self, POS_SLACK as int),
                    hm == self.aliens_height_modifier,
                    r < self.aliens@.len(),
                    row@ == grid_of(g0)[r as int],
                    i <= row@.len(),
                    new_row@.len() == i,
                    forall|i2: int|
                        0 <= i2 < i ==> (#[trigger] new_row@[i2]) == alien_dropped(
                            grid_of(g0)[r as int][i2],
                            hm as int,
                        ),
                decreases row@.len() - i,
            {
                let a = row[i];
                let dy = crate::entities::fp_mul(hm, a.size.1);
                proof {
                    crate::entities::lemma_fp_product(hm as int, a.size.1 as int, 1_000_000, 1_000_000);
                }
                let dropped = Alien { entity: Entity { y: a.entity.y + dy, ..a.entity }, ..a };
                new_row.push(dropped);
                i += 1;
            }
            new_grid.push(new_row);
            r += 1;
        }
        self.aliens = new_grid;
        proof {
            assert forall|r2: int| 0 <= r2 < grid_of(*self).len() implies grid_of(*self)[r2]
                =~= grid_dropped(grid_of(g0), hm as int)[r2] by {}
            assert(grid_of(*self) =~= grid_dropped(grid_of(g0), hm as int));
        }
    }

    /// Does the already-moved formation cross the right side on its
    /// next step?
    fn edge_hit_right(&self) -> (b: bool)
        requires
            game_bounded(*self, POS_SLACK as int),
        ensures
            b == hits_right(grid_of(*self), self.aliens_movement_speed as int, self.width as int),
    {
        let s = self.aliens_movement_speed;
        let mut hit = false;
        let mut r: usize = 0;
        while r < self.aliens.len()
            invariant
                game_bounded(*self, POS_SLACK as int),
                s == self.aliens_movement_speed,
                r <= self.aliens@.len(),
                hit == (exists|r2: int, i2: int|
                    0 <= r2 < r && 0 <= i2 < grid_of(*self)[r2].len()
                        && #[trigger] grid_of(*self)[r2][i2].entity.x + grid_of(
                        *self,
                    )[r2][i2].size.0 + s >= self.width),
            decreases self.aliens@.len() - r,
        {
            let row = &self.aliens[r];
            let mut i: usize = 0;
            while i < row.len()
                invariant
                    game_bounded(*self, POS_SLACK as int),
                    s == self.aliens_movement_speed,
                    r < self.aliens@.len(),
                    row@ == grid_of(*self)[r as int],
                    i <= row@.len(),
                    hit == ((exists|r2: int, i2: int|
                        0 <= r2 < r && 0 <= i2 < grid_of(*self)[r2].len()
                            && #[trigger] grid_of(*self)[r2][i2].entity.x + grid_of(
                            *self,
                        )[r2][i2].size.0 + s >= self.width) || (exists|i2: int|
                        0 <= i2 < i && #[trigger] row@[i2].entity.x + row@[i2].size.0 + s
                            >= self.width)),
                decreases row@.len() - i,
            {
                if row[i].entity.x + row[i].size.0 + s >= self.width {
                    hit = true;
                }
                i += 1;
            }
            r += 1;
        }
        hit
    }

    /// Does the already-moved formation cross the left side on its
    /// next step?
    fn edge_hit_left(&self) -> (b: bool)
        requires
            game_bounded(*self, POS_SLACK as int),
        ensures
            b == hits_left(grid_of(*self), self.aliens_movement_speed as int),
    {
        let s = self.aliens_movement_speed;
        let mut hit = false;
        let mut r: usize = 0;
        while r < self.aliens.len()
            invariant
                game_bounded(*self, POS_SLACK as int),
                s == self.aliens_movement_speed,
                r <= self.aliens@.len(),
                hit == (exists|r2: int, i2: int|
                    0 <= r2 < r && 0 <= i2 < grid_of(*self)[r2].len()
                        && #[trigger] grid_of(*self)[r2][i2].entity.x + s <= 0),
            decreases self.aliens@.len() - r,
        {
            let row = &self.aliens[r];
            let mut i: usize = 0;
            while i < row.len()
                invariant
                    game_bounded(*self, POS_SLACK as int),
                    s == self.aliens_movement_speed,
                    r < self.aliens@.len(),
                    row@ == grid_of(*self)[r as int],
                    i <= row@.len(),
                    hit == ((exists|r2: int, i2: int|
                        0 <= r2 < r && 0 <= i2 < grid_of(*self)[r2].len()
                            && #[trigger] grid_of(*self)[r2][i2].entity.x + s <= 0) || (exists|
                        i2: int|
                        0 <= i2 < i && #[trigger] row@[i2].entity.x + s <= 0)),
                decreases row@.len() - i,
            {
                if row[i].entity.x + s <= 0 {
                    hit = true;
                }
                i += 1;
            }
            r += 1;
        }
        hit
    }

    /// Rebuild the shooter snapshot: walk the grid row by row and
    /// keep, for every column, the alien walked last.
    fn rebuild_snapshot(&mut self)
        ensures
            snapshot_ok(final(self).last_aliens@, grid_of(*final(self))),
            *final(self) == (Game { last_aliens: final(self).last_aliens, ..*old(self) }),
    {
        let ghost gr = grid_of(*self);
        let ghost g0 = *self;
        let mut snap: Vec<(u32, (usize, usize))> = Vec::new();
        let mut r: usize = 0;
        while r < self.aliens.len()
            invariant
                *self == g0,
                gr == grid_of(*self),
                r <= gr.len(),
                snapshot_ok_upto(snap@, gr, r as int, 0),
            decreases gr.len() - r,
        {
            let row_len = self.aliens[r].len();
            let mut i: usize = 0;
            while i < row_len
                invariant
                    *self == g0,
                    gr == grid_of(*self),
                    r < gr.len(),
                    row_len == gr[r as int].len(),
                    i <= row_len,
                    snapshot_ok_upto(snap@, gr, r as int, i as int),
                decreases row_len - i,
            {
                let c = self.aliens[r][i].position.1;
                proof {
                    assert(gr[r as int] == self.aliens@[r as int]@);
                }
                let ghost snap0 = snap@;
                let mut k: usize = 0;
                let mut found = false;
                while k < snap.len() && !found
                    invariant
                        snap@ == snap0,
                        k <= snap@.len(),
                        found ==> k < snap@.len() && snap@[k as int].0 == c,
                        !found ==> forall|k2: int| 0 <= k2 < k ==> (#[trigger] snap@[k2]).0 != c,
                    decreases snap@.len() - k + (if found { 0int } else { 1int }),
                {
                    if snap[k].0 == c {
                        found = true;
                    } else {
                        k += 1;
                    }
                }
                if found {
                    snap.remove(k);
                }
                let ghost mid = snap@;
                proof {
                    if found {
                        assert forall|j: int| 0 <= j < mid.len() implies #[trigger] mid[j] == (
                            if j < k {
                                snap0[j]
                            } else {
                                snap0[j + 1]
                            }
                        ) by {}
                        assert(forall|k2: int|
                            0 <= k2 < snap0.len() && (#[trigger] snap0[k2]).0 == c ==> k2 == k);
                    }
                    assert(forall|k2: int| 0 <= k2 < mid.len() ==> (#[trigger] mid[k2]).0 != c);
                }
                snap.push((c, (r, i)));
                proof {
                    assert forall|k2: int| 0 <= k2 < snap@.len() - 1 implies snap_entry_ok_upto(
                        gr,
                        (#[trigger] snap@[k2]).0,
                        snap@[k2].1.0 as int,
                        snap@[k2].1.1 as int,
                        r as int,
                        i as int,
                    ) by {
                        assert(snap@[k2] == mid[k2]);
                        if found {
                            if k2 < k {
                                assert(mid[k2] == snap0[k2]);
                            } else {
                                assert(mid[k2] == snap0[k2 + 1]);
                            }
                        } else {
                            assert(mid[k2] == snap0[k2]);
                        }
                    }
                    assert forall|k1: int, k2: int|
                        0 <= k1 < snap@.len() - 1 && 0 <= k2 < snap@.len() - 1 && (
                        #[trigger] snap@[k1]).0 == (#[trigger] snap@[k2]).0 implies k1 == k2 by {
                        if found {
                            let p1: int = if k1 < k { k1 } else { k1 + 1 };
                            let p2: int = if k2 < k { k2 } else { k2 + 1 };
                            assert(snap@[k1] == snap0[p1]);
                            assert(snap@[k2] == snap0[p2]);
                        } else {
                            assert(snap@[k1] == snap0[k1]);
                            assert(snap@[k2] == snap0[k2]);
                        }
                    }
                    assert forall|k0: int|
                        0 <= k0 < snap0.len() && (#[trigger] snap0[k0]).0 != c implies exists|
                        k2: int|
                        0 <= k2 < snap@.len() - 1 && (#[trigger] snap@[k2]).0 == snap0[k0].0 by {
                        if found {
                            if k0 < k {
                                assert(snap@[k0] == snap0[k0]);
                            } else {
                                assert(k0 != k);
                                assert(snap@[k0 - 1] == snap0[k0]);
                            }
                        } else {
                            assert(snap@[k0] == snap0[k0]);
                        }
                    }
                    lemma_snapshot_insert_step(snap0, snap@, gr, c, r, i);
                }
                i += 1;
            }
            proof {
                lemma_snapshot_row_end(snap@, gr, r as int);
            }
            r += 1;
        }
        self.last_aliens = snap;
    }

    /// Advance the formation one frame: sweep, then reverse and drop
    /// at the sides, then rebuild the shooter snapshot.
    pub fn advance_formation(&mut self)
        requires
            game_bounded(*old(self), 2 * POS_LIMIT as int),
        ensures
            grid_of(*final(self)) == formation_advanced(
                grid_of(*old(self)),
                old(self).aliens_movement_speed,
                old(self).aliens_height_modifier,
                old(self).width,
            ).0,
            final(self).aliens_movement_speed == formation_advanced(
                grid_of(*old(self)),
                old(self).aliens_movement_speed,
                old(self).aliens_height_modifier,
                old(self).width,
            ).1,
            snapshot_ok(final(self).last_aliens@, grid_of(*final(self))),
            *final(self) == (Game {
                aliens: final(self).aliens,
                aliens_movement_speed: final(self).aliens_movement_speed,
                last_aliens: final(self).last_aliens,
                ..*old(self)
            }),
    {
        let ghost g0 = *self;
        proof {
            lemma_game_bounded_widen(*self, 2 * POS_LIMIT as int, POS_SLACK as int);
        }
        self.move_rows();
        proof {
            lemma_grid_moved_in_bounds(grid_of(g0), g0.aliens_movement_speed as int, 2 * POS_LIMIT as int);
            lemma_rebounded(g0, *self, 2 * POS_LIMIT as int + SIZE_LIMIT as int);
            lemma_game_bounded_widen(*self, 2 * POS_LIMIT as int + SIZE_LIMIT as int, POS_SLACK as int);
        }
        if self.aliens_movement_speed > 0 {
            if self.edge_hit_right() {
                self.aliens_movement_speed = -self.aliens_movement_speed;
                let ghost g1 = *self;
                self.drop_rows();
                proof {
                    lemma_grid_dropped_in_bounds(
                        grid_of(g1),
                        g1.aliens_height_modifier as int,
                        2 * POS_LIMIT as int + SIZE_LIMIT as int,
                    );
                    lemma_rebounded(g1, *self, 2 * POS_LIMIT as int + SIZE_LIMIT as int + 100_000_000_000);
                    lemma_game_bounded_widen(
                        *self,
                        2 * POS_LIMIT as int + SIZE_LIMIT as int + 100_000_000_000,
                        POS_SLACK as int,
                    );
                }
            }
        }
        if self.aliens_movement_speed < 0 {
            if self.edge_hit_left() {
                self.aliens_movement_speed = -self.aliens_movement_speed;
                let ghost g2 = *self;
                self.drop_rows();
                proof {
                    lemma_grid_dropped_in_bounds(
                        grid_of(g2),
                        g2.aliens_height_modifier as int,
                        2 * POS_LIMIT as int + SIZE_LIMIT as int + 100_000_000_000,
                    );
                    lemma_rebounded(
                        g2,
                        *self,
                        2 * POS_LIMIT as int + SIZE_LIMIT as int + 200_000_000_000,
                    );
                }
            }
        }
        self.rebuild_snapshot();
    }

    /// Once the fire interval has elapsed, pick one alien uniformly
    /// at random from the shooter snapshot and have it fire; the
    /// caller restarts its interval timer exactly when this returns
    /// true.
    pub fn maybe_alien_fire(&mut self, tick_due: bool) -> (fired: bool)
        requires
            game_bounded(*old(self), POS_SLACK as int),
            snapshot_ok(old(self).last_aliens@, grid_of(*old(self))),
        ensures
            fired == (tick_due && old(self).last_aliens@.len() > 0),
            !fired ==> *final(self) == *old(self),
            fired ==> (exists|k: int|
                0 <= k < old(self).last_aliens@.len() && final(self).alien_shots@
                    == old(self).alien_shots@.push(
                    alien_shot_of(
                        grid_of(*old(self))[old(self).last_aliens@[k].1.0 as int][old(
                            self,
                        ).last_aliens@[k].1.1 as int],
                    ),
                )) && *final(self) == (Game { alien_shots: final(self).alien_shots, ..*old(self) }),
    {
        if !tick_due || self.last_aliens.len() == 0 {
            return false;
        }
        let k = random_below(self.last_aliens.len());
        let (c, (r, i)) = self.last_aliens[k];
        proof {
            assert(snap_entry_ok_upto(
                grid_of(*self),
                self.last_aliens@[k as int].0,
                self.last_aliens@[k as int].1.0 as int,
                self.last_aliens@[k as int].1.1 as int,
                grid_of(*self).len() as int,
                0,
            ));
        }
        let shooter = self.aliens[r][i];
        let shot = shooter.shoot();
        self.alien_shots.push(shot);
        true
    }
}


/// A shot after integrating its velocity for one frame.
pub open spec fn moved_shot(s: Shot) -> Shot {
    Shot { entity: (Entity { y: (s.entity.y + s.entity.movement_speed) as i64, ..s.entity }), ..s }
}

/// Some shot of the list, at its moved position, overlaps the box.
pub open spec fn moved_shots_hit(cs: Seq<Shot>, e: Entity) -> bool {
    exists|k: int| 0 <= k < cs.len() && boxes_overlap(moved_shot(#[trigger] cs[k]).entity, e)
}

/// Some entity of the list, as it stands, overlaps the box.
pub open spec fn shots_hit(list: Seq<Shot>, e: Entity) -> bool {
    exists|k: int| 0 <= k < list.len() && boxes_overlap((#[trigger] list[k]).entity, e)
}

/// Some alien of the grid overlaps the box.
pub open spec fn grid_hit(gr: Seq<Seq<Alien>>, e: Entity) -> bool {
    exists|r: int, i: int|
        0 <= r < gr.len() && 0 <= i < gr[r].len() && boxes_overlap(e, (#[trigger] gr[r][i]).entity)
}

/// The aliens of one row that no cannon shot of the pass reaches.
pub open spec fn surviving_row(row: Seq<Alien>, cs: Seq<Shot>) -> Seq<Alien>
    decreases row.len(),
{
    if row.len() == 0 {
        Seq::empty()
    } else {
        let rest = surviving_row(row.drop_last(), cs);
        if moved_shots_hit(cs, row.last().entity) {
            rest
        } else {
            rest.push(row.last())
        }
    }
}

/// The grid after removing every alien some cannon shot reaches.
pub open spec fn surviving_grid(gr: Seq<Seq<Alien>>, cs: Seq<Shot>) -> Seq<Seq<Alien>> {
    Seq::new(gr.len(), |r: int| surviving_row(gr[r], cs))
}

/// A cannon shot after the pass: moved, and marked collided when it
/// overlaps any alien of the pass's grid or any alien shot at its
/// pre-pass position.
pub open spec fn resolved_cannon_shot(g: Game, j: int) -> Shot {
    let m = moved_shot(g.cannon_shots@[j]);
    Shot {
        entity: (Entity {
            collided: m.entity.collided || grid_hit(grid_of(g), m.entity) || shots_hit(
                g.alien_shots@,
                m.entity,
            ),
            ..m.entity
        }),
        ..m
    }
}

/// An alien shot after the pass: moved, and marked collided when any
/// moved cannon shot overlaps its pre-pass position or it reaches
/// the cannon.
pub open spec fn resolved_alien_shot(g: Game, j: int) -> Shot {
    let s0 = g.alien_shots@[j];
    let m = moved_shot(s0);
    Shot {
        entity: (Entity {
            collided: m.entity.collided || moved_shots_hit(g.cannon_shots@, s0.entity)
                || boxes_overlap(m.entity, g.cannon.entity),
            ..m.entity
        }),
        ..m
    }
}

/// How many alien shots, at their moved positions, reach the cannon.
pub open spec fn cannon_hits(list: Seq<Shot>, c: Cannon) -> int
    decreases list.len(),
{
    if list.len() == 0 {
        0
    } else {
        cannon_hits(list.drop_last(), c) + (if boxes_overlap(
            moved_shot(list.last()).entity,
            c.entity,
        ) {
            1int
        } else {
            0int
        })
    }
}

/// Does any alien shot, at its moved position, reach the cannon?
pub open spec fn cannon_was_hit(list: Seq<Shot>, c: Cannon) -> bool {
    exists|j: int|
        0 <= j < list.len() && boxes_overlap(moved_shot(#[trigger] list[j]).entity, c.entity)
}

/// The sweep speed after `d` aliens were destroyed this pass: sped
/// up away from zero by a fifth of a pixel per kill.
pub open spec fn sped_up(s: i64, d: int) -> i64 {
    if s > 0 {
        (s + 2 * d) as i64
    } else {
        (s - 2 * d) as i64
    }
}

/// One forward step of `surviving_row`.
pub proof fn lemma_surviving_push(row: Seq<Alien>, x: Alien, cs: Seq<Shot>)
    ensures
        surviving_row(row.push(x), cs) == (if moved_shots_hit(cs, x.entity) {
            surviving_row(row, cs)
        } else {
            surviving_row(row, cs).push(x)
        }),
{
    assert(row.push(x).drop_last() =~= row);
    assert(row.push(x).last() == x);
}

/// One step of `grid_count` and `grid_score` along a `take` prefix.
pub proof fn lemma_grid_take_step(gr: Seq<Seq<Alien>>, r: int)
    requires
        0 <= r < gr.len(),
    ensures
        grid_count(gr.take(r + 1)) == grid_count(gr.take(r)) + gr[r].len(),
        grid_score(gr.take(r + 1)) == grid_score(gr.take(r)) + row_score(gr[r]),
{
    assert(gr.take(r + 1).drop_last() =~= gr.take(r));
    assert(gr.take(r + 1).last() == gr[r]);
}

/// One forward step of `row_score` along a `take` prefix.
pub proof fn lemma_row_take_step(row: Seq<Alien>, i: int)
    requires
        0 <= i < row.len(),
    ensures
        row_score(row.take(i + 1)) == row_score(row.take(i)) + row[i].score,
{
    assert(row.take(i + 1).drop_last() =~= row.take(i));
    assert(row.take(i + 1).last() == row[i]);
}

/// Appending one alien adds its score.
pub proof fn lemma_row_score_push(row: Seq<Alien>, x: Alien)
    ensures
        row_score(row.push(x)) == row_score(row) + x.score,
{
    assert(row.push(x).drop_last() =~= row);
    assert(row.push(x).last() == x);
}

/// Scores never go negative.
pub proof fn lemma_row_score_nonneg(row: Seq<Alien>)
    ensures
        row_score(row) >= 0,
    decreases row.len(),
{
    if row.len() > 0 {
        lemma_row_score_nonneg(row.drop_last());
    }
}

/// A prefix of a row scores at most the whole row.
pub proof fn lemma_row_score_take_le(row: Seq<Alien>, i: int)
    requires
        0 <= i <= row.len(),
    ensures
        row_score(row.take(i)) <= row_score(row),
    decreases row.len(),
{
    if i == row.len() {
        assert(row.take(i) =~= row);
    } else {
        assert(row.take(i) =~= row.drop_last().take(i));
        lemma_row_score_take_le(row.drop_last(), i);
    }
}

/// Grid scores and counts never go negative.
pub proof fn lemma_grid_sums_nonneg(gr: Seq<Seq<Alien>>)
    ensures
        grid_score(gr) >= 0,
        grid_count(gr) >= 0,
    decreases gr.len(),
{
    if gr.len() > 0 {
        lemma_grid_sums_nonneg(gr.drop_last());
        lemma_row_score_nonneg(gr.last());
    }
}

/// A prefix of the grid scores and counts at most the whole grid.
pub proof fn lemma_grid_sums_take_le(gr: Seq<Seq<Alien>>, r: int)
    requires
        0 <= r <= gr.len(),
    ensures
        grid_score(gr.take(r)) <= grid_score(gr),
        grid_count(gr.take(r)) <= grid_count(gr),
    decreases gr.len(),
{
    if r == gr.len() {
        assert(gr.take(r) =~= gr);
    } else {
        assert(gr.take(r) =~= gr.drop_last().take(r));
        lemma_grid_sums_take_le(gr.drop_last(), r);
        lemma_row_score_nonneg(gr.last());
    }
}

/// What survives a row is never more than the row, in score or in
/// number.
pub proof fn lemma_surviving_row_le(row: Seq<Alien>, cs: Seq<Shot>)
    ensures
        row_score(surviving_row(row, cs)) <= row_score(row),
        surviving_row(row, cs).len() <= row.len(),
        row_score(surviving_row(row, cs)) >= 0,
    decreases row.len(),
{
    if row.len() > 0 {
        lemma_surviving_row_le(row.drop_last(), cs);
        if !moved_shots_hit(cs, row.last().entity) {
            lemma_row_score_push(surviving_row(row.drop_last(), cs), row.last());
        }
    } else {
        lemma_row_score_nonneg(surviving_row(row, cs));
    }
}

/// Scan a list of shots for one that overlaps the box.
fn shots_overlap_scan(list: &Vec<Shot>, e: &Entity) -> (b: bool)
    requires
        forall|k: int| 0 <= k < list@.len() ==> shot_in_bounds(#[trigger] list@[k], POS_SLACK as int),
        entity_in_bounds(*e, POS_SLACK as int),
    ensures
        b == shots_hit(list@, *e),
{
    let mut hit = false;
    let mut k: usize = 0;
    while k < list.len()
        invariant
            k <= list@.len(),
            forall|k2: int| 0 <= k2 < list@.len() ==> shot_in_bounds(#[trigger] list@[k2], POS_SLACK as int),
            entity_in_bounds(*e, POS_SLACK as int),
            hit == (exists|k2: int|
                0 <= k2 < k && boxes_overlap((#[trigger] list@[k2]).entity, *e)),
        decreases list@.len() - k,
    {
        if overlaps(&list[k].entity, e) {
            hit = true;
        }
        k += 1;
    }
    proof {
        assert forall|k2: int|
            0 <= k2 < list@.len() && boxes_overlap((#[trigger] list@[k2]).entity, *e) implies hit by {}
    }
    hit
}

impl Game {
    /// Scan the grid for an alien that overlaps the box.
    fn grid_overlap_scan(&self, e: &Entity) -> (b: bool)
        requires
            game_bounded(*self, POS_SLACK as int),
            entity_in_bounds(*e, POS_SLACK as int),
        ensures
            b == grid_hit(grid_of(*self), *e),
    {
        let mut hit = false;
        let mut r: usize = 0;
        while r < self.aliens.len()
            invariant
                game_bounded(*self, POS_SLACK as int),
                entity_in_bounds(*e, POS_SLACK as int),
                r <= self.aliens@.len(),
                hit == (exists|r2: int, i2: int|
                    0 <= r2 < r && 0 <= i2 < grid_of(*self)[r2].len() && boxes_overlap(
                        *e,
                        (#[trigger] grid_of(*self)[r2][i2]).entity,
                    )),
            decreases self.aliens@.len() - r,
        {
            let row = &self.aliens[r];
            let mut i: usize = 0;
            while i < row.len()
                invariant
                    game_bounded(*self, POS_SLACK as int),
                    entity_in_bounds(*e, POS_SLACK as int),
                    r < self.aliens@.len(),
                    row@ == grid_of(*self)[r as int],
                    i <= row@.len(),
                    hit == ((exists|r2: int, i2: int|
                        0 <= r2 < r && 0 <= i2 < grid_of(*self)[r2].len() && boxes_overlap(
                            *e,
                            (#[trigger] grid_of(*self)[r2][i2]).entity,
                        )) || (exists|i2: int|
                        0 <= i2 < i && boxes_overlap(*e, (#[trigger] row@[i2]).entity))),
                decreases row@.len() - i,
            {
                if overlaps(e, &row[i].entity) {
                    hit = true;
                }
                i += 1;
            }
            r += 1;
        }
        hit
    }

    /// One collision pass, in the order the loop fixes: cannon shots
    /// move and are tested against every alien and every alien shot;
    /// reached aliens leave the grid, their scores join the session
    /// score, and the sweep speeds up by a fifth of a pixel per kill;
    /// then alien shots move and are tested against the cannon, each
    /// hit costing one life.
    pub fn resolve_collisions(&mut self)
        requires
            game_bounded(*old(self), 4_000_000_000_000int),
            speed_headroom(*old(self)),
            score_headroom(*old(self)),
            old(self).cannon.life - old(self).alien_shots@.len() >= i32::MIN,
            old(self).alien_shots@.len() < 1_000_000_000,
        ensures
            final(self).cannon_shots@.len() == old(self).cannon_shots@.len(),
            forall|j: int|
                0 <= j < old(self).cannon_shots@.len() ==> final(self).cannon_shots@[j]
                    == resolved_cannon_shot(*old(self), j),
            grid_of(*final(self)) == surviving_grid(grid_of(*old(self)), old(self).cannon_shots@),
            final(self).game_score == old(self).game_score + grid_score(grid_of(*old(self)))
                - grid_score(grid_of(*final(self))),
            final(self).aliens_movement_speed == sped_up(
                old(self).aliens_movement_speed,
                grid_count(grid_of(*old(self))) - grid_count(grid_of(*final(self))),
            ),
            final(self).alien_shots@.len() == old(self).alien_shots@.len(),
            forall|j: int|
                0 <= j < old(self).alien_shots@.len() ==> final(self).alien_shots@[j]
                    == resolved_alien_shot(*old(self), j),
            final(self).cannon.life == old(self).cannon.life - cannon_hits(
                old(self).alien_shots@,
                old(self).cannon,
            ),
            final(self).cannon.entity == (Entity {
                collided: old(self).cannon.entity.collided || cannon_was_hit(
                    old(self).alien_shots@,
                    old(self).cannon,
                ),
                ..old(self).cannon.entity
            }),
            speed_headroom(*final(self)),
            score_headroom(*final(self)),
            *final(self) == (Game {
                cannon: final(self).cannon,
                game_score: final(self).game_score,
                cannon_shots: final(self).cannon_shots,
                alien_shots: final(self).alien_shots,
                aliens: final(self).aliens,
                aliens_movement_speed: final(self).aliens_movement_speed,
                ..*old(self)
            }),
    {
        let ghost g0 = *self;
        proof {
            lemma_game_bounded_widen(*self, 4_000_000_000_000int, POS_SLACK as int);
        }

        // Cannon shots: move, then mark against aliens and alien
        // shots.
        let mut new_cs: Vec<Shot> = Vec::new();
        let mut j: usize = 0;
        while j < self.cannon_shots.len()
            invariant
                *self == g0,
                game_bounded(*self, POS_SLACK as int),
                game_bounded(g0, 4_000_000_000_000int),
                j <= self.cannon_shots@.len(),
                new_cs@.len() == j,
                forall|j2: int|
                    0 <= j2 < j ==> (#[trigger] new_cs@[j2]) == resolved_cannon_shot(g0, j2),
                forall|j2: int|
                    0 <= j2 < j ==> shot_in_bounds(#[trigger] new_cs@[j2], POS_SLACK as int),
            decreases self.cannon_shots@.len() - j,
        {
            let s = self.cannon_shots[j];
            let moved = Shot {
                entity: Entity { y: s.entity.y + s.entity.movement_speed, ..s.entity },
                ..s
            };
            let hit_alien = self.grid_overlap_scan(&moved.entity);
            let hit_shot = shots_overlap_scan(&self.alien_shots, &moved.entity);
            let marked = if hit_alien || hit_shot {
                Shot { entity: Entity { collided: true, ..moved.entity }, ..moved }
            } else {
                moved
            };
            new_cs.push(marked);
            j += 1;
        }
        self.cannon_shots = new_cs;
        proof {
            assert(grid_of(*self) == grid_of(g0));
            assert(game_bounded(*self, POS_SLACK as int));
        }

        // Aliens: remove everything a moved cannon shot reaches,
        // scoring and counting the kills.
        let ghost gr0 = grid_of(g0);
        let ghost sg = surviving_grid(gr0, g0.cannon_shots@);
        proof {
            lemma_grid_sums_nonneg(gr0);
        }
        let mut new_grid: Vec<Vec<Alien>> = Vec::new();
        let mut removed_score: u32 = 0;
        let mut removed_count: i64 = 0;
        let mut r: usize = 0;
        while r < self.aliens.len()
            invariant
                game_bounded(*self, POS_SLACK as int),
                *self == (Game { cannon_shots: self.cannon_shots, ..g0 }),
                self.cannon_shots@.len() == g0.cannon_shots@.len(),
                forall|j2: int|
                    0 <= j2 < g0.cannon_shots@.len() ==> (#[trigger] self.cannon_shots@[j2])
                        == resolved_cannon_shot(g0, j2),
                gr0 == grid_of(*self),
                sg == surviving_grid(gr0, g0.cannon_shots@),
                r <= gr0.len(),
                new_grid@.len() == r,
                forall|r2: int| 0 <= r2 < r ==> (#[trigger] new_grid@[r2])@ == sg[r2],
                removed_score == grid_score(gr0.take(r as int)) - grid_score(sg.take(r as int)),
                removed_count == grid_count(gr0.take(r as int)) - grid_count(sg.take(r as int)),
                0 <= removed_score,
                removed_score <= grid_score(gr0.take(r as int)),
                0 <= removed_count,
                removed_count <= grid_count(gr0.take(r as int)),
                grid_score(gr0.take(r as int)) <= grid_score(gr0),
                grid_count(gr0.take(r as int)) <= grid_count(gr0),
                g0.game_score + grid_score(gr0) <= u32::MAX,
                2 * grid_count(gr0) <= SIZE_LIMIT,
            decreases gr0.len() - r,
        {
            let row = &self.aliens[r];
            let ghost srow = surviving_row(gr0[r as int], g0.cannon_shots@);
            let mut new_row: Vec<Alien> = Vec::new();
            let mut row_removed_score: u32 = 0;
            let mut row_removed_count: i64 = 0;
            let mut i: usize = 0;
            proof {
                lemma_row_score_nonneg(gr0[r as int]);
                lemma_grid_sums_take_le(gr0, r as int + 1);
                lemma_grid_take_step(gr0, r as int);
                lemma_row_score_take_le(gr0[r as int], 0);
            }
            while i < row.len()
                invariant
                    game_bounded(*self, POS_SLACK as int),
                    *self == (Game { cannon_shots: self.cannon_shots, ..g0 }),
                    self.cannon_shots@.len() == g0.cannon_shots@.len(),
                    forall|j2: int|
                        0 <= j2 < g0.cannon_shots@.len() ==> (#[trigger] self.cannon_shots@[j2])
                            == resolved_cannon_shot(g0, j2),
                    gr0 == grid_of(*self),
                    r < gr0.len(),
                    row@ == gr0[r as int],
                    srow == surviving_row(gr0[r as int], g0.cannon_shots@),
                    i <= row@.len(),
                    new_row@ == surviving_row(row@.take(i as int), g0.cannon_shots@),
                    row_removed_score == row_score(row@.take(i as int)) - row_score(new_row@),
                    row_removed_count == i - new_row@.len(),
                    0 <= row_removed_score,
                    row_score(new_row@) >= 0,
                    row_removed_score <= row_score(row@.take(i as int)),
                    row_score(row@.take(i as int)) <= row_score(row@),
                    grid_score(gr0.take(r as int)) + row_score(row@) <= grid_score(gr0),
                    grid_count(gr0.take(r as int)) + row@.len() <= grid_count(gr0),
                    removed_score == grid_score(gr0.take(r as int)) - grid_score(sg.take(r as int)),
                    removed_count == grid_count(gr0.take(r as int)) - grid_count(sg.take(r as int)),
                    0 <= removed_score,
                    removed_score <= grid_score(gr0.take(r as int)),
                    0 <= removed_count,
                    removed_count <= grid_count(gr0.take(r as int)),
                    g0.game_score + grid_score(gr0) <= u32::MAX,
                    2 * grid_count(gr0) <= SIZE_LIMIT,
                decreases row@.len() - i,
            {
                let a = row[i];
                proof {
                    lemma_surviving_push(row@.take(i as int), a, g0.cannon_shots@);
                    assert(row@.take(i as int).push(a) =~= row@.take(i as int + 1));
                    lemma_row_take_step(row@, i as int);
                    lemma_row_score_take_le(row@, i as int + 1);
                    lemma_grid_sums_nonneg(sg.take(r as int));
                    lemma_grid_sums_nonneg(gr0.take(r as int));
                }
                let ghost cs_now = self.cannon_shots@;
                let hit = {
                    let mut h = false;
                    let mut k: usize = 0;
                    while k < self.cannon_shots.len()
                        invariant
                            game_bounded(*self, POS_SLACK as int),
                            k <= cs_now.len(),
                            cs_now == self.cannon_shots@,
                            alien_in_bounds(a, POS_SLACK as int),
                            h == (exists|k2: int|
                                0 <= k2 < k && boxes_overlap(
                                    (#[trigger] cs_now[k2]).entity,
                                    a.entity,
                                )),
                        decreases cs_now.len() - k,
                    {
                        if overlaps(&self.cannon_shots[k].entity, &a.entity) {
                            h = true;
                        }
                        k += 1;
                    }
                    h
                };
                proof {
                    assert forall|k2: int|
                        #![trigger cs_now[k2]]
                        #![trigger moved_shot(g0.cannon_shots@[k2])]
                        0 <= k2 < g0.cannon_shots@.len() implies boxes_overlap(
                        cs_now[k2].entity,
                        a.entity,
                    ) == boxes_overlap(moved_shot(g0.cannon_shots@[k2]).entity, a.entity) by {
                        assert(cs_now[k2] == resolved_cannon_shot(g0, k2));
                    }
                    assert(hit == moved_shots_hit(g0.cannon_shots@, a.entity));
                }
                if hit {
                    row_removed_score = row_removed_score + a.score;
                    row_removed_count = row_removed_count + 1;
                } else {
                    new_row.push(a);
                    proof {
                        lemma_row_score_push(new_row@.drop_last(), a);
                        assert(new_row@.drop_last() =~= surviving_row(
                            row@.take(i as int),
                            g0.cannon_shots@,
                        ));
                    }
                }
                i += 1;
            }
            proof {
                assert(row@.take(row@.len() as int) =~= row@);
                assert(new_row@ == srow);
                assert(sg[r as int] == srow);
                lemma_grid_take_step(gr0, r as int);
                lemma_grid_take_step(sg, r as int);
                lemma_surviving_row_le(gr0[r as int], g0.cannon_shots@);
            }
            new_grid.push(new_row);
            removed_score = removed_score + row_removed_score;
            removed_count = removed_count + row_removed_count;
            r += 1;
            proof {
                lemma_grid_sums_take_le(gr0, r as int);
            }
        }
        self.aliens = new_grid;
        self.game_score = self.game_score + removed_score;
        if self.aliens_movement_speed > 0 {
            self.aliens_movement_speed = self.aliens_movement_speed + 2 * removed_count;
        } else {
            self.aliens_movement_speed = self.aliens_movement_speed - 2 * removed_count;
        }
        proof {
            assert(grid_of(*self) =~= sg);
            assert(gr0.take(gr0.len() as int) =~= gr0);
            assert(sg.take(sg.len() as int) =~= sg);
            lemma_grid_sums_nonneg(sg);
            assert forall|r2: int, i2: int|
                0 <= r2 < grid_of(*self).len() && 0 <= i2 < grid_of(*self)[r2].len()
                    implies alien_in_bounds(#[trigger] grid_of(*self)[r2][i2], POS_SLACK as int) by {
                lemma_surviving_row_bounds(gr0[r2], g0.cannon_shots@, POS_SLACK as int);
            }
            assert(game_bounded(*self, POS_SLACK as int));
        }

        // Alien shots: move, mark against the already-moved cannon
        // shots and the cannon, and charge the cannon for each hit.
        let ghost g1 = *self;
        let mut new_as: Vec<Shot> = Vec::new();
        let mut hits: i64 = 0;
        let mut any_hit = false;
        let mut j: usize = 0;
        while j < self.alien_shots.len()
            invariant
                *self == g1,
                game_bounded(*self, POS_SLACK as int),
                game_bounded(g0, 4_000_000_000_000int),
                g0.alien_shots@.len() < 1_000_000_000,
                self.alien_shots@ == g0.alien_shots@,
                self.cannon == g0.cannon,
                self.cannon_shots@.len() == g0.cannon_shots@.len(),
                forall|j2: int|
                    0 <= j2 < g0.cannon_shots@.len() ==> (#[trigger] self.cannon_shots@[j2])
                        == resolved_cannon_shot(g0, j2),
                j <= g0.alien_shots@.len(),
                new_as@.len() == j,
                forall|j2: int|
                    0 <= j2 < j ==> (#[trigger] new_as@[j2]) == resolved_alien_shot(g0, j2),
                forall|j2: int|
                    0 <= j2 < j ==> shot_in_bounds(#[trigger] new_as@[j2], POS_SLACK as int),
                hits == cannon_hits(g0.alien_shots@.take(j as int), g0.cannon),
                0 <= hits <= j,
                any_hit == cannon_was_hit(g0.alien_shots@.take(j as int), g0.cannon),
            decreases g0.alien_shots@.len() - j,
        {
            let s = self.alien_shots[j];
            let ghost cs_now = self.cannon_shots@;
            let hit_cs = shots_overlap_scan(&self.cannon_shots, &s.entity);
            proof {
                assert forall|k2: int|
                    #![trigger cs_now[k2]]
                    #![trigger moved_shot(g0.cannon_shots@[k2])]
                    0 <= k2 < g0.cannon_shots@.len() implies boxes_overlap(
                    cs_now[k2].entity,
                    s.entity,
                ) == boxes_overlap(moved_shot(g0.cannon_shots@[k2]).entity, s.entity) by {
                    assert(cs_now[k2] == resolved_cannon_shot(g0, k2));
                }
                assert(hit_cs == moved_shots_hit(g0.cannon_shots@, s.entity));
            }
            let moved = Shot {
                entity: Entity { y: s.entity.y + s.entity.movement_speed, ..s.entity },
                ..s
            };
            let hit_cannon = overlaps(&moved.entity, &self.cannon.entity);
            let marked = if hit_cs || hit_cannon {
                Shot { entity: Entity { collided: true, ..moved.entity }, ..moved }
            } else {
                moved
            };
            new_as.push(marked);
            proof {
                assert(g0.alien_shots@.take(j as int).push(s) =~= g0.alien_shots@.take(
                    j as int + 1,
                ));
                assert(g0.alien_shots@.take(j as int + 1).drop_last() =~= g0.alien_shots@.take(
                    j as int,
                ));
                assert(moved.entity == moved_shot(s).entity);
                lemma_cannon_was_hit_push(g0.alien_shots@.take(j as int), s, g0.cannon);
            }
            if hit_cannon {
                hits = hits + 1;
                any_hit = true;
            }
            j += 1;
        }
        proof {
            assert(g0.alien_shots@.take(g0.alien_shots@.len() as int) =~= g0.alien_shots@);
        }
        self.alien_shots = new_as;
        let life64: i64 = self.cannon.life as i64 - hits;
        self.cannon.life = life64 as i32;
        if any_hit {
            self.cannon.entity.collided = true;
        }
        proof {
            lemma_cannon_hits_le(g0.alien_shots@, g0.cannon);
        }
    }
}

/// Every survivor of a row is within the bound of the whole row.
pub proof fn lemma_surviving_row_bounds(row: Seq<Alien>, cs: Seq<Shot>, m: int)
    requires
        forall|i: int| 0 <= i < row.len() ==> alien_in_bounds(#[trigger] row[i], m),
    ensures
        forall|i: int|
            0 <= i < surviving_row(row, cs).len() ==> alien_in_bounds(
                #[trigger] surviving_row(row, cs)[i],
                m,
            ),
    decreases row.len(),
{
    if row.len() > 0 {
        lemma_surviving_row_bounds(row.drop_last(), cs, m);
        let rest = surviving_row(row.drop_last(), cs);
        assert forall|i: int|
            0 <= i < surviving_row(row, cs).len() implies alien_in_bounds(
            #[trigger] surviving_row(row, cs)[i],
            m,
        ) by {
            if !moved_shots_hit(cs, row.last().entity) {
                if i < rest.len() {
                    assert(surviving_row(row, cs)[i] == rest[i]);
                } else {
                    assert(surviving_row(row, cs)[i] == row.last());
                }
            } else {
                assert(surviving_row(row, cs)[i] == rest[i]);
            }
        }
    }
}

/// Appending one alien shot: the cannon was hit by the longer list
/// exactly when it was already hit or the new shot reaches it.
pub proof fn lemma_cannon_was_hit_push(list: Seq<Shot>, x: Shot, c: Cannon)
    ensures
        cannon_was_hit(list.push(x), c) == (cannon_was_hit(list, c) || boxes_overlap(
            moved_shot(x).entity,
            c.entity,
        )),
{
    if cannon_was_hit(list.push(x), c) {
        let k = choose|k: int|
            0 <= k < list.push(x).len() && boxes_overlap(
                moved_shot(#[trigger] list.push(x)[k]).entity,
                c.entity,
            );
        if k < list.len() {
            assert(list.push(x)[k] == list[k]);
            assert(boxes_overlap(moved_shot(list[k]).entity, c.entity));
        } else {
            assert(list.push(x)[k] == x);
        }
    }
    if cannon_was_hit(list, c) {
        let k = choose|k: int|
            0 <= k < list.len() && boxes_overlap(moved_shot(#[trigger] list[k]).entity, c.entity);
        assert(list.push(x)[k] == list[k]);
        assert(boxes_overlap(moved_shot(list.push(x)[k]).entity, c.entity));
    }
    if boxes_overlap(moved_shot(x).entity, c.entity) {
        assert(list.push(x)[list.len() as int] == x);
        assert(boxes_overlap(moved_shot(list.push(x)[list.len() as int]).entity, c.entity));
    }
}

/// The number of hits never exceeds the number of alien shots.
pub proof fn lemma_cannon_hits_le(list: Seq<Shot>, c: Cannon)
    ensures
        0 <= cannon_hits(list, c) <= list.len(),
    decreases list.len(),
{
    if list.len() > 0 {
        lemma_cannon_hits_le(list.drop_last(), c);
    }
}

/// The widened bound: a session bounded by a smaller bound is
/// bounded by a larger one.
pub proof fn lemma_game_bounded_widen(g: Game, m1: int, m2: int)
    requires
        game_bounded(g, m1),
        m1 <= m2,
    ensures
        game_bounded(g, m2),
{
}

/// If two sessions differ at most in the alien grid, and the new
/// grid is within bounds, the new session is bounded.
pub proof fn lemma_rebounded(g1: Game, g2: Game, m: int)
    requires
        game_bounded(g1, m),
        g2 == (Game {
            aliens: g2.aliens,
            aliens_movement_speed: g2.aliens_movement_speed,
            ..g1
        }),
        -SIZE_LIMIT <= g2.aliens_movement_speed <= SIZE_LIMIT,
        forall|r: int, i: int|
            0 <= r < grid_of(g2).len() && 0 <= i < grid_of(g2)[r].len() ==> alien_in_bounds(
                #[trigger] grid_of(g2)[r][i],
                m,
            ),
    ensures
        game_bounded(g2, m),
{
}

/// Shifting a bounded grid keeps every alien within the bound grown
/// by the speed limit.
pub proof fn lemma_grid_moved_in_bounds(gr: Seq<Seq<Alien>>, s: int, m: int)
    requires
        forall|r: int, i: int|
            0 <= r < gr.len() && 0 <= i < gr[r].len() ==> alien_in_bounds(#[trigger] gr[r][i], m),
        -SIZE_LIMIT <= s <= SIZE_LIMIT,
        0 <= m,
    ensures
        forall|r: int, i: int|
            0 <= r < grid_moved(gr, s).len() && 0 <= i < grid_moved(gr, s)[r].len()
                ==> alien_in_bounds(#[trigger] grid_moved(gr, s)[r][i], m + SIZE_LIMIT),
{
    assert forall|r: int, i: int|
        0 <= r < grid_moved(gr, s).len() && 0 <= i < grid_moved(gr, s)[r].len()
            implies alien_in_bounds(#[trigger] grid_moved(gr, s)[r][i], m + SIZE_LIMIT) by {
        assert(grid_moved(gr, s)[r][i] == alien_moved(gr[r][i], s));
        assert(alien_in_bounds(gr[r][i], m));
    }
}

/// Dropping a bounded grid keeps every alien within the bound grown
/// by the largest possible drop.
pub proof fn lemma_grid_dropped_in_bounds(gr: Seq<Seq<Alien>>, hm: int, m: int)
    requires
        forall|r: int, i: int|
            0 <= r < gr.len() && 0 <= i < gr[r].len() ==> alien_in_bounds(#[trigger] gr[r][i], m),
        0 <= hm <= SIZE_LIMIT,
        0 <= m,
    ensures
        forall|r: int, i: int|
            0 <= r < grid_dropped(gr, hm).len() && 0 <= i < grid_dropped(gr, hm)[r].len()
                ==> alien_in_bounds(#[trigger] grid_dropped(gr, hm)[r][i], m + 100_000_000_000),
{
    assert forall|r: int, i: int|
        0 <= r < grid_dropped(gr, hm).len() && 0 <= i < grid_dropped(gr, hm)[r].len()
            implies alien_in_bounds(#[trigger] grid_dropped(gr, hm)[r][i], m + 100_000_000_000) by {
        assert(grid_dropped(gr, hm)[r][i] == alien_dropped(gr[r][i], hm));
        assert(alien_in_bounds(gr[r][i], m));
        crate::entities::lemma_fp_product(hm, gr[r][i].size.1 as int, 1_000_000, 1_000_000);
    }
}

/// After replacing (or first inserting) the entry of column `c` with
/// the alien at `(r, i)`, the snapshot covers the walk up to and
/// including `(r, i)`.
proof fn lemma_snapshot_insert_step(
    snap0: Seq<(u32, (usize, usize))>,
    snap1: Seq<(u32, (usize, usize))>,
    gr: Seq<Seq<Alien>>,
    c: u32,
    ru: usize,
    iu: usize,
)
    requires
        (ru as int) < gr.len(),
        (iu as int) < gr[ru as int].len(),
        gr[ru as int][iu as int].position.1 == c,
        snap1.len() > 0,
        snap1.last() == (c, (ru, iu)),
        forall|k: int|
            0 <= k < snap1.len() - 1 ==> snap_entry_ok_upto(
                gr,
                (#[trigger] snap1[k]).0,
                snap1[k].1.0 as int,
                snap1[k].1.1 as int,
                ru as int,
                iu as int,
            ),
        forall|k: int| 0 <= k < snap1.len() - 1 ==> (#[trigger] snap1[k]).0 != c,
        forall|k1: int, k2: int|
            0 <= k1 < snap1.len() - 1 && 0 <= k2 < snap1.len() - 1 && (#[trigger] snap1[k1]).0 == (
            #[trigger] snap1[k2]).0 ==> k1 == k2,
        forall|r2: int, i2: int|
            0 <= r2 < gr.len() && 0 <= i2 < gr[r2].len() && lex_before(r2, i2, ru as int, iu as int)
                ==> exists|k: int|
                0 <= k < snap0.len() && (#[trigger] snap0[k]).0 == gr[r2][i2].position.1,
        forall|k: int|
            0 <= k < snap0.len() && (#[trigger] snap0[k]).0 != c ==> exists|k2: int|
                0 <= k2 < snap1.len() - 1 && (#[trigger] snap1[k2]).0 == snap0[k].0,
    ensures
        snapshot_ok_upto(snap1, gr, ru as int, iu as int + 1),
{
    let r = ru as int;
    let i = iu as int;
    assert forall|k: int| 0 <= k < snap1.len() implies snap_entry_ok_upto(
        gr,
        (#[trigger] snap1[k]).0,
        snap1[k].1.0 as int,
        snap1[k].1.1 as int,
        r,
        i + 1,
    ) by {
        if k < snap1.len() - 1 {
            assert(snap_entry_ok_upto(gr, snap1[k].0, snap1[k].1.0 as int, snap1[k].1.1 as int, r, i));
            assert(snap1[k].0 != c);
            assert(forall|r2: int, i2: int|
                0 <= r2 < gr.len() && 0 <= i2 < gr[r2].len() && lex_before(r2, i2, r, i + 1)
                    && #[trigger] gr[r2][i2].position.1 == snap1[k].0 ==> lex_before(r2, i2, r, i));
        } else {
            assert(snap1[k] == (c, (ru, iu)));
        }
    }
    assert forall|r2: int, i2: int|
        0 <= r2 < gr.len() && 0 <= i2 < gr[r2].len() && lex_before(r2, i2, r, i + 1) implies exists|
        k: int|
        0 <= k < snap1.len() && snap1[k].0 == (#[trigger] gr[r2][i2]).position.1 by {
        if gr[r2][i2].position.1 == c {
            assert(snap1[snap1.len() - 1].0 == gr[r2][i2].position.1);
        } else {
            assert(lex_before(r2, i2, r, i));
            let k0 = choose|k0: int|
                0 <= k0 < snap0.len() && (#[trigger] snap0[k0]).0 == gr[r2][i2].position.1;
            let k1 = choose|k1: int|
                0 <= k1 < snap1.len() - 1 && (#[trigger] snap1[k1]).0 == snap0[k0].0;
            assert(snap1[k1].0 == gr[r2][i2].position.1);
        }
    }
}

} // verus!
