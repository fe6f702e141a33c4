//! Entity registry: the single store of mutable simulation state. Entities
//! are plain records of an identifier plus component data; the registry is
//! a vector of live entities together with the global counters that the
//! per-frame systems maintain.

use vstd::prelude::*;

use crate::{
    ANGLE_CAP, COORD_LIMIT, EXPLOSION_LEN, EXPLOSION_TICK_US, SCALE_LIMIT, SIZE_LIMIT, SPEED_LIMIT,
    VEL_LIMIT, WIN_LIMIT,
};

verus! {

/// Which faction an entity belongs to and which projectile origin it has
/// are disjoint closed tags; together with the explosion lifecycle they
/// form one closed variant per entity.
#[derive(Clone, Copy, Debug, PartialEq, Eq, Structural)]
pub enum Origin {
    FromPlayer,
    FromEnemy,
}

/// Countdown state of one explosion animation: time accumulated toward the
/// next animation frame, and the current frame index.
#[derive(Clone, Copy, Debug, PartialEq, Eq, Structural)]
pub struct ExplosionTimer {
    pub elapsed_us: u64,
    pub frame: u32,
}

/// Elliptical flight-path descriptor attached to an enemy. Coordinates are
/// subunits; `speed` is subunits per second; `angle` is the current
/// progress along the path, in milliradians.
#[derive(Clone, Copy, Debug)]
pub struct Formation {
    pub start: (i64, i64),
    pub radius: (i64, i64),
    pub pivot: (i64, i64),
    pub speed: i64,
    pub angle: i64,
}

/// The closed set of simulated entity kinds.
#[derive(Clone, Copy, Debug)]
pub enum Kind {
    Player,
    Enemy(Formation),
    Laser(Origin),
    ExplosionToSpawn,
    Explosion(ExplosionTimer),
}

/// One simulated entity: an identifier plus its component data. Positions
/// and sizes are subunits; `z` is only a render-order hint; `vel_x`/`vel_y`
/// are a unit direction in thousandths, scaled by the global speed constant
/// and the timestep at integration time; `scale` is in thousandths.
#[derive(Clone, Copy, Debug)]
pub struct Entity {
    pub id: u64,
    pub x: i64,
    pub y: i64,
    pub z: i64,
    pub vel_x: i64,
    pub vel_y: i64,
    pub size_w: i64,
    pub size_h: i64,
    pub scale: i64,
    pub movable: bool,
    pub auto_despawn: bool,
    pub kind: Kind,
}

/// Window extents, in subunits.
#[derive(Clone, Copy, Debug, PartialEq, Eq, Structural)]
pub struct WinSize {
    pub w: i64,
    pub h: i64,
}

/// The whole simulation state: the registry, the global counters, and the
/// injected configuration (window bounds and the global speed constant).
pub struct World {
    pub entities: Vec<Entity>,
    pub next_id: u64,
    pub enemy_count: u32,
    pub win: WinSize,
    pub base_speed: i64,
    pub elapsed_us: u64,
    pub spawn_timer_us: u64,
    pub player_died: bool,
    pub player_death_us: u64,
}

impl ExplosionTimer {
    /// A timer is well formed while it has not yet accumulated a full tick
    /// and its frame index has not passed the terminal frame.
    pub open spec fn wf(self) -> bool {
        self.elapsed_us < EXPLOSION_TICK_US && self.frame <= EXPLOSION_LEN
    }
}

impl Formation {
    /// Orbit direction derived from the side the formation starts on:
    /// 1 is counter-clockwise, -1 is clockwise.
    pub open spec fn dir(self) -> int {
        if self.start.0 < 0 {
            1int
        } else {
            -1int
        }
    }

    /// Bounds that keep every formation computation inside the engine's
    /// coordinate range: positive radii, the whole ellipse within the
    /// coordinate limit, a positive bounded speed, and a bounded angle.
    pub open spec fn wf(self) -> bool {
        &&& 1 <= self.radius.0 <= COORD_LIMIT
        &&& 1 <= self.radius.1 <= COORD_LIMIT
        &&& abs_i(self.pivot.0 as int) + self.radius.0 <= COORD_LIMIT
        &&& abs_i(self.pivot.1 as int) + self.radius.1 <= COORD_LIMIT
        &&& -COORD_LIMIT <= self.start.0 <= COORD_LIMIT
        &&& -COORD_LIMIT <= self.start.1 <= COORD_LIMIT
        &&& 1 <= self.speed <= SPEED_LIMIT
        &&& -ANGLE_CAP <= self.angle <= ANGLE_CAP
    }
}

/// Magnitude of a mathematical integer.
pub open spec fn abs_i(a: int) -> int {
    if a < 0 {
        -a
    } else {
        a
    }
}

impl Entity {
    pub open spec fn is_enemy(self) -> bool {
        self.kind matches Kind::Enemy(_)
    }

    pub open spec fn is_player(self) -> bool {
        self.kind matches Kind::Player
    }

    pub open spec fn is_laser_from(self, o: Origin) -> bool {
        self.kind matches Kind::Laser(p) && p == o
    }

    pub open spec fn wf(self) -> bool {
        &&& -COORD_LIMIT <= self.x <= COORD_LIMIT
        &&& -COORD_LIMIT <= self.y <= COORD_LIMIT
        &&& -COORD_LIMIT <= self.z <= COORD_LIMIT
        &&& -VEL_LIMIT <= self.vel_x <= VEL_LIMIT
        &&& -VEL_LIMIT <= self.vel_y <= VEL_LIMIT
        &&& 0 <= self.size_w <= SIZE_LIMIT
        &&& 0 <= self.size_h <= SIZE_LIMIT
        &&& 0 <= self.scale <= SCALE_LIMIT
        &&& (self.kind matches Kind::Enemy(f) ==> f.wf())
        &&& (self.kind matches Kind::Explosion(t) ==> t.wf())
        &&& (self.is_enemy() ==> !self.movable)
    }
}

/// Number of entities in `s` that satisfy `p`.
pub open spec fn count_matching(s: Seq<Entity>, p: spec_fn(Entity) -> bool) -> int
    decreases s.len(),
{
    if s.len() == 0 {
        0
    } else {
        count_matching(s.drop_last(), p) + if p(s.last()) {
            1int
        } else {
            0int
        }
    }
}

pub open spec fn count_enemies(s: Seq<Entity>) -> int {
    count_matching(s, |e: Entity| e.is_enemy())
}

pub open spec fn count_players(s: Seq<Entity>) -> int {
    count_matching(s, |e: Entity| e.is_player())
}

pub proof fn lemma_count_bounds(s: Seq<Entity>, p: spec_fn(Entity) -> bool)
    ensures
        0 <= count_matching(s, p) <= s.len(),
    decreases s.len(),
{
    if s.len() > 0 {
        lemma_count_bounds(s.drop_last(), p);
    }
}

/// Counting distributes over removing one element.
pub proof fn lemma_count_remove(s: Seq<Entity>, p: spec_fn(Entity) -> bool, i: int)
    requires
        0 <= i < s.len(),
    ensures
        count_matching(s, p) == count_matching(s.remove(i), p) + if p(s[i]) {
            1int
        } else {
            0int
        },
    decreases s.len(),
{
    if i == s.len() - 1 {
        assert(s.remove(i) =~= s.drop_last());
    } else {
        assert(s.remove(i).drop_last() =~= s.drop_last().remove(i));
        assert(s.remove(i).last() == s.last());
        lemma_count_remove(s.drop_last(), p, i);
    }
}

/// Counting distributes over appending one element.
pub proof fn lemma_count_push(s: Seq<Entity>, p: spec_fn(Entity) -> bool, e: Entity)
    ensures
        count_matching(s.push(e), p) == count_matching(s, p) + if p(e) {
            1int
        } else {
            0int
        },
{
    assert(s.push(e).drop_last() =~= s);
    assert(s.push(e).last() == e);
}

/// If nothing in `s` satisfies `p`, the count is zero.
pub proof fn lemma_count_zero(s: Seq<Entity>, p: spec_fn(Entity) -> bool)
    requires
        forall|i: int| 0 <= i < s.len() ==> !p(s[i]),
    ensures
        count_matching(s, p) == 0,
    decreases s.len(),
{
    if s.len() > 0 {
        lemma_count_zero(s.drop_last(), p);
    }
}

/// If some element of `s` satisfies `p`, the count is positive.
pub proof fn lemma_count_positive(s: Seq<Entity>, p: spec_fn(Entity) -> bool, i: int)
    requires
        0 <= i < s.len(),
        p(s[i]),
    ensures
        count_matching(s, p) >= 1,
    decreases s.len(),
{
    if i == s.len() - 1 {
        lemma_count_bounds(s.drop_last(), p);
    } else {
        lemma_count_positive(s.drop_last(), p, i);
    }
}

/// Every identifier in `s` is distinct.
pub open spec fn seq_ids_unique(s: Seq<Entity>) -> bool {
    forall|i: int, j: int| 0 <= i < j < s.len() ==> s[i].id != s[j].id
}

/// Every identifier in `s` is below `n`.
pub open spec fn seq_ids_below(s: Seq<Entity>, n: u64) -> bool {
    forall|i: int| 0 <= i < s.len() ==> s[i].id < n
}

/// Every entity in `s` is well formed.
pub open spec fn seq_all_wf(s: Seq<Entity>) -> bool {
    forall|i: int| 0 <= i < s.len() ==> s[i].wf()
}

/// Transform each entity of `s` in order, keeping those mapped to `Some`
/// and dropping those mapped to `None`: the shape shared by the per-frame
/// passes over the registry.
pub open spec fn sweep(s: Seq<Entity>, f: spec_fn(Entity) -> Option<Entity>) -> Seq<Entity>
    decreases s.len(),
{
    if s.len() == 0 {
        Seq::empty()
    } else {
        let rest = sweep(s.drop_last(), f);
        match f(s.last()) {
            Some(e) => rest.push(e),
            None => rest,
        }
    }
}

/// A sweep whose transform keeps `p` exactly (and only drops entities not
/// satisfying `p`) keeps the count of `p`.
pub proof fn lemma_sweep_count_eq(s: Seq<Entity>, f: spec_fn(Entity) -> Option<Entity>, p: spec_fn(
    Entity,
) -> bool)
    requires
        forall|i: int|
            0 <= i < s.len() ==> match #[trigger] f(s[i]) {
                Some(m) => p(m) == p(s[i]),
                None => !p(s[i]),
            },
    ensures
        count_matching(sweep(s, f), p) == count_matching(s, p),
    decreases s.len(),
{
    if s.len() > 0 {
        lemma_sweep_count_eq(s.drop_last(), f, p);
        match f(s.last()) {
            Some(m) => {
                lemma_count_push(sweep(s.drop_last(), f), p, m);
            },
            None => {},
        }
    }
}

/// A sweep whose transform never turns an entity into one satisfying `p`
/// cannot increase the count of `p`.
pub proof fn lemma_sweep_count_le(s: Seq<Entity>, f: spec_fn(Entity) -> Option<Entity>, p: spec_fn(
    Entity,
) -> bool)
    requires
        forall|i: int|
            0 <= i < s.len() ==> match #[trigger] f(s[i]) {
                Some(m) => p(m) ==> p(s[i]),
                None => true,
            },
    ensures
        count_matching(sweep(s, f), p) <= count_matching(s, p),
    decreases s.len(),
{
    if s.len() > 0 {
        lemma_sweep_count_le(s.drop_last(), f, p);
        match f(s.last()) {
            Some(m) => {
                lemma_count_push(sweep(s.drop_last(), f), p, m);
            },
            None => {
                lemma_count_bounds(s.drop_last(), p);
            },
        }
    }
}

/// A sweep whose transform keeps identifiers and well-formedness keeps the
/// registry invariants: everything well formed, identifiers distinct and
/// still below the allocation cursor.
pub proof fn lemma_sweep_registry(s: Seq<Entity>, f: spec_fn(Entity) -> Option<Entity>, n: u64)
    requires
        forall|i: int|
            0 <= i < s.len() ==> match #[trigger] f(s[i]) {
                Some(m) => m.id == s[i].id && m.wf(),
                None => true,
            },
        seq_ids_unique(s),
        seq_ids_below(s, n),
    ensures
        sweep(s, f).len() <= s.len(),
        seq_all_wf(sweep(s, f)),
        seq_ids_unique(sweep(s, f)),
        seq_ids_below(sweep(s, f), n),
        forall|k: int|
            0 <= k < sweep(s, f).len() ==> exists|i: int|
                0 <= i < s.len() && f(s[i]) == Some(#[trigger] sweep(s, f)[k]),
    decreases s.len(),
{
    if s.len() > 0 {
        let rest = sweep(s.drop_last(), f);
        lemma_sweep_registry(s.drop_last(), f, n);
        match f(s.last()) {
            Some(m) => {
                assert forall|k: int| 0 <= k < sweep(s, f).len() implies exists|i: int|
                    0 <= i < s.len() && f(s[i]) == Some(#[trigger] sweep(s, f)[k]) by {
                    if k < rest.len() {
                        let i = choose|i: int|
                            0 <= i < s.drop_last().len() && f(s.drop_last()[i]) == Some(rest[k]);
                        assert(f(s[i]) == Some(sweep(s, f)[k]));
                    } else {
                        assert(f(s[s.len() - 1]) == Some(sweep(s, f)[k]));
                    }
                }
                assert forall|i: int, j: int|
                    0 <= i < j < sweep(s, f).len() implies sweep(s, f)[i].id != sweep(
                    s,
                    f,
                )[j].id by {
                    if j == sweep(s, f).len() - 1 {
                        let i0 = choose|i0: int|
                            0 <= i0 < s.drop_last().len() && f(s.drop_last()[i0]) == Some(rest[i]);
                        assert(rest[i].id == s[i0].id);
                        assert(s[i0].id != s.last().id);
                    }
                }
            },
            None => {},
        }
    }
}

/// Index of the first entity in `s` with identifier `id`, or `-1`.
pub open spec fn find_idx(s: Seq<Entity>, id: u64) -> int
    decreases s.len(),
{
    if s.len() == 0 {
        -1
    } else if s[0].id == id {
        0
    } else {
        let r = find_idx(s.drop_first(), id);
        if r < 0 {
            -1
        } else {
            1 + r
        }
    }
}

/// `s` with the first entity carrying `id` removed, if any.
pub open spec fn remove_id(s: Seq<Entity>, id: u64) -> Seq<Entity> {
    let r = find_idx(s, id);
    if r >= 0 {
        s.remove(r)
    } else {
        s
    }
}

/// `find_idx` finds the first match, and `-1` exactly when there is none.
pub proof fn lemma_find_idx(s: Seq<Entity>, id: u64)
    ensures
        find_idx(s, id) == -1 ==> forall|i: int| 0 <= i < s.len() ==> s[i].id != id,
        find_idx(s, id) >= 0 ==> {
            let r = find_idx(s, id);
            &&& 0 <= r < s.len()
            &&& s[r].id == id
            &&& forall|i: int| 0 <= i < r ==> s[i].id != id
        },
    decreases s.len(),
{
    if s.len() > 0 && s[0].id != id {
        lemma_find_idx(s.drop_first(), id);
        let t = s.drop_first();
        let rt = find_idx(t, id);
        if rt == -1 {
            assert forall|i: int| 0 <= i < s.len() implies s[i].id != id by {
                if i > 0 {
                    assert(t[i - 1] == s[i]);
                }
            }
        } else {
            assert(t[rt] == s[rt + 1]);
            assert forall|i: int| 0 <= i < rt + 1 implies s[i].id != id by {
                if i > 0 {
                    assert(t[i - 1] == s[i]);
                }
            }
        }
    }
}

/// Any index whose prefix holds no match is the first match.
pub proof fn lemma_find_idx_of(s: Seq<Entity>, id: u64, i: int)
    requires
        0 <= i < s.len(),
        s[i].id == id,
        forall|j: int| 0 <= j < i ==> s[j].id != id,
    ensures
        find_idx(s, id) == i,
{
    lemma_find_idx(s, id);
    let r = find_idx(s, id);
    if r == -1 {
        assert(s[i].id != id);
        assert(false);
    }
    if r < i {
        assert(s[r].id != id);
        assert(false);
    }
    if r > i {
        assert(s[i].id != id);
        assert(false);
    }
}

/// Counting matches pointwise-equal sequences.
pub proof fn lemma_count_pointwise(s1: Seq<Entity>, s2: Seq<Entity>, p: spec_fn(Entity) -> bool)
    requires
        s1.len() == s2.len(),
        forall|i: int| 0 <= i < s1.len() ==> p(s1[i]) == p(s2[i]),
    ensures
        count_matching(s1, p) == count_matching(s2, p),
    decreases s1.len(),
{
    if s1.len() > 0 {
        lemma_count_pointwise(s1.drop_last(), s2.drop_last(), p);
    }
}

impl World {
    /// Every identifier in the registry is distinct.
    pub open spec fn ids_unique(self) -> bool {
        seq_ids_unique(self.entities@)
    }

    /// Every identifier in the registry is below the allocation cursor.
    pub open spec fn ids_below_next(self) -> bool {
        seq_ids_below(self.entities@, self.next_id)
    }

    pub open spec fn all_wf(self) -> bool {
        seq_all_wf(self.entities@)
    }

    /// The global invariants of the simulation state: a well-formed
    /// configuration and registry, distinct identifiers, the enemy counter
    /// equal to the number of live enemies, and at most one live player.
    pub open spec fn wf(self) -> bool {
        &&& 0 <= self.win.w <= WIN_LIMIT
        &&& 0 <= self.win.h <= WIN_LIMIT
        &&& 1 <= self.base_speed <= SPEED_LIMIT
        &&& self.all_wf()
        &&& self.ids_unique()
        &&& self.ids_below_next()
        &&& self.enemy_count == count_enemies(self.entities@)
        &&& count_players(self.entities@) <= 1
        &&& (self.player_died ==> self.player_death_us <= self.elapsed_us)
    }

    /// There is a live entity with identifier `id`.
    pub open spec fn has_id(self, id: u64) -> bool {
        exists|i: int| 0 <= i < self.entities@.len() && self.entities@[i].id == id
    }

    /// A fresh world: empty registry, zeroed counters and clocks, with the
    /// given window bounds and global speed constant.
    pub fn new(win: WinSize, base_speed: i64) -> (w: World)
        requires
            0 <= win.w <= WIN_LIMIT,
            0 <= win.h <= WIN_LIMIT,
            1 <= base_speed <= SPEED_LIMIT,
        ensures
            w.wf(),
            w.entities@.len() == 0,
            w.enemy_count == 0,
            w.next_id == 0,
            w.win == win,
            w.base_speed == base_speed,
            w.elapsed_us == 0,
            w.spawn_timer_us == 0,
            !w.player_died,
    {
        let w = World {
            entities: Vec::new(),
            next_id: 0,
            enemy_count: 0,
            win,
            base_speed,
            elapsed_us: 0,
            spawn_timer_us: 0,
            player_died: false,
            player_death_us: 0,
        };
        proof {
            lemma_count_zero(w.entities@, |e: Entity| e.is_enemy());
            lemma_count_zero(w.entities@, |e: Entity| e.is_player());
        }
        w
    }

    /// Index of the live entity with identifier `id`, if any.
    pub fn find_index(&self, id: u64) -> (r: Option<usize>)
        ensures
            match r {
                Some(i) => i < self.entities@.len() && self.entities@[i as int].id == id
                    && forall|j: int| 0 <= j < i ==> self.entities@[j].id != id,
                None => !self.has_id(id),
            },
    {
        let n: usize = self.entities.len();
        let mut i: usize = 0;
        while i < n
            invariant
                i <= n,
                n == self.entities@.len(),
                forall|j: int| 0 <= j < i ==> self.entities@[j].id != id,
            decreases n - i,
        {
            if self.entities[i].id == id {
                return Some(i);
            }
            i = i + 1;
        }
        None
    }

    /// Remove the live entity with identifier `id`, if any. Returns the
    /// removed entity. The enemy counter is not touched here: destruction
    /// accounting belongs to the caller that owns the concern.
    pub fn despawn(&mut self, id: u64) -> (r: Option<Entity>)
        ensures
            final(self).entities@ == remove_id(old(self).entities@, id),
            match r {
                Some(e) => {
                    &&& find_idx(old(self).entities@, id) >= 0
                    &&& e == old(self).entities@[find_idx(old(self).entities@, id)]
                    &&& e.id == id
                    &&& old(self).has_id(id)
                },
                None => find_idx(old(self).entities@, id) == -1 && !old(self).has_id(id),
            },
            final(self).next_id == old(self).next_id,
            final(self).enemy_count == old(self).enemy_count,
            final(self).win == old(self).win,
            final(self).base_speed == old(self).base_speed,
            final(self).elapsed_us == old(self).elapsed_us,
            final(self).spawn_timer_us == old(self).spawn_timer_us,
            final(self).player_died == old(self).player_died,
            final(self).player_death_us == old(self).player_death_us,
    {
        let found = self.find_index(id);
        match found {
            Some(i) => {
                let e = self.entities[i];
                proof {
                    lemma_find_idx_of(self.entities@, id, i as int);
                }
                self.entities.remove(i);
                Some(e)
            },
            None => {
                proof {
                    lemma_find_idx(self.entities@, id);
                    if find_idx(self.entities@, id) >= 0 {
                        assert(self.entities@[find_idx(self.entities@, id)].id == id);
                        assert(false);
                    }
                }
                None
            },
        }
    }
}

} // verus!
