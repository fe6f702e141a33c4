//! Collision and destruction resolver. Projectiles are tested against
//! targets by bounding-box overlap; a per-frame visited set guarantees that
//! no entity takes part in two collisions in one frame, so each destroyed
//! enemy decrements the population counter exactly once, in whatever order
//! the pairs are traversed. Destruction emits an explosion request at the
//! target's last known position.

use vstd::prelude::*;

use crate::geometry::{entity_collide, overlaps};
use crate::registry::{
    find_idx, lemma_count_positive, lemma_count_push, lemma_count_remove, lemma_find_idx,
    lemma_find_idx_of, remove_id, seq_ids_below, seq_ids_unique, Entity, Kind, Origin, World,
};
use crate::FP;

verus! {

/// The marker entity raised by a destruction event: it carries only the
/// spawn position for the explosion that replaces it next frame.
pub open spec fn explosion_request(id: u64, x: i64, y: i64, z: i64) -> Entity {
    Entity {
        id,
        x,
        y,
        z,
        vel_x: 0,
        vel_y: 0,
        size_w: 0,
        size_h: 0,
        scale: FP,
        movable: false,
        auto_despawn: false,
        kind: Kind::ExplosionToSpawn,
    }
}

/// Index of the first enemy at or after `j` that overlaps `laser` and is
/// not in the visited set, or `-1`.
pub open spec fn first_hit(s: Seq<Entity>, laser: Entity, j: int, visited: Seq<u64>) -> int
    decreases s.len() - j,
{
    if j < 0 || j >= s.len() {
        -1
    } else if s[j].is_enemy() && !visited.contains(s[j].id) && overlaps(laser, s[j]) {
        j
    } else {
        first_hit(s, laser, j + 1, visited)
    }
}

/// The projectile/target pairs detected from laser index `i` on, given the
/// entities already visited: each player projectile not yet visited is
/// paired with the first unvisited enemy it overlaps, and both then count
/// as visited for the rest of the scan.
pub open spec fn detect_from(s: Seq<Entity>, i: int, visited: Seq<u64>) -> Seq<(u64, u64)>
    decreases s.len() - i,
{
    if i < 0 || i >= s.len() {
        Seq::empty()
    } else {
        let e = s[i];
        if e.is_laser_from(Origin::FromPlayer) && !visited.contains(e.id) {
            let j = first_hit(s, e, 0, visited);
            if j >= 0 {
                seq![(e.id, s[j].id)] + detect_from(s, i + 1, visited.push(e.id).push(s[j].id))
            } else {
                detect_from(s, i + 1, visited)
            }
        } else {
            detect_from(s, i + 1, visited)
        }
    }
}

/// All projectile/target pairs of the frame, in scan order.
pub open spec fn detect_hits_spec(s: Seq<Entity>) -> Seq<(u64, u64)> {
    detect_from(s, 0, Seq::empty())
}

/// Resolve one detected pair against the registry: if both entities are
/// still live and distinct, both are despawned, the counter drops by one
/// for each removed enemy, and an explosion request is raised at the
/// target's position under a fresh identifier; otherwise the pair is
/// skipped, so an entity already destroyed this frame is never destroyed
/// again.
pub open spec fn apply_one(s: Seq<Entity>, next: int, cnt: int, pr: (u64, u64)) -> (
    Seq<Entity>,
    int,
    int,
) {
    if pr.0 != pr.1 && find_idx(s, pr.0) >= 0 && find_idx(s, pr.1) >= 0 {
        let ti = find_idx(s, pr.1);
        let t = s[ti];
        let s1 = s.remove(ti);
        let c1 = if t.is_enemy() {
            cnt - 1
        } else {
            cnt
        };
        let li = find_idx(s1, pr.0);
        let c2 = if li >= 0 && s1[li].is_enemy() {
            c1 - 1
        } else {
            c1
        };
        let s2 = remove_id(s1, pr.0);
        (s2.push(explosion_request(next as u64, t.x, t.y, t.z)), next + 1, c2)
    } else {
        (s, next, cnt)
    }
}

/// Resolve a list of detected pairs in order.
pub open spec fn apply_from(s: Seq<Entity>, next: int, cnt: int, pairs: Seq<(u64, u64)>) -> (
    Seq<Entity>,
    int,
    int,
)
    decreases pairs.len(),
{
    if pairs.len() == 0 {
        (s, next, cnt)
    } else {
        let o = apply_one(s, next, cnt, pairs.first());
        apply_from(o.0, o.1, o.2, pairs.drop_first())
    }
}

/// Resolving one more pair at the end is resolving the rest first.
pub proof fn lemma_apply_from_push(
    s: Seq<Entity>,
    next: int,
    cnt: int,
    pairs: Seq<(u64, u64)>,
    pr: (u64, u64),
)
    ensures
        apply_from(s, next, cnt, pairs.push(pr)) == ({
            let o = apply_from(s, next, cnt, pairs);
            apply_one(o.0, o.1, o.2, pr)
        }),
    decreases pairs.len(),
{
    if pairs.len() == 0 {
        reveal_with_fuel(apply_from, 2);
        assert(pairs.push(pr).first() == pr);
        assert(pairs.push(pr).drop_first() =~= Seq::<(u64, u64)>::empty());
    } else {
        assert(pairs.push(pr).first() == pairs.first());
        assert(pairs.push(pr).drop_first() =~= pairs.drop_first().push(pr));
        let o = apply_one(s, next, cnt, pairs.first());
        lemma_apply_from_push(o.0, o.1, o.2, pairs.drop_first(), pr);
    }
}

/// Resolution never increases the enemy counter.
pub proof fn lemma_apply_from_count_le(
    s: Seq<Entity>,
    next: int,
    cnt: int,
    pairs: Seq<(u64, u64)>,
)
    ensures
        apply_from(s, next, cnt, pairs).2 <= cnt,
    decreases pairs.len(),
{
    if pairs.len() > 0 {
        let o = apply_one(s, next, cnt, pairs.first());
        lemma_apply_from_count_le(o.0, o.1, o.2, pairs.drop_first());
    }
}

/// Removing one entity keeps identifiers distinct and bounded.
proof fn lemma_remove_ids(s: Seq<Entity>, i: int, n: u64)
    requires
        0 <= i < s.len(),
        seq_ids_unique(s),
        seq_ids_below(s, n),
    ensures
        seq_ids_unique(s.remove(i)),
        seq_ids_below(s.remove(i), n),
{
    let t = s.remove(i);
    assert forall|a: int, b: int| 0 <= a < b < t.len() implies t[a].id != t[b].id by {
        let a0 = if a < i {
            a
        } else {
            a + 1
        };
        let b0 = if b < i {
            b
        } else {
            b + 1
        };
        assert(t[a] == s[a0] && t[b] == s[b0]);
    }
    assert forall|a: int| 0 <= a < t.len() implies t[a].id < n by {
        let a0 = if a < i {
            a
        } else {
            a + 1
        };
        assert(t[a] == s[a0]);
    }
}

/// Does the vector contain the value?
fn contains_u64(v: &Vec<u64>, x: u64) -> (r: bool)
    ensures
        r == v@.contains(x),
{
    let n: usize = v.len();
    let mut i: usize = 0;
    while i < n
        invariant
            i <= n,
            n == v@.len(),
            forall|j: int| 0 <= j < i ==> v@[j] != x,
        decreases n - i,
    {
        if v[i] == x {
            return true;
        }
        i = i + 1;
    }
    false
}

/// Find the first unvisited enemy that the projectile overlaps.
fn first_hit_scan(w: &World, laser: &Entity, visited: &Vec<u64>) -> (r: Option<usize>)
    requires
        w.wf(),
        laser.wf(),
    ensures
        match r {
            Some(j) => j < w.entities@.len() && first_hit(w.entities@, *laser, 0, visited@)
                == j as int,
            None => first_hit(w.entities@, *laser, 0, visited@) == -1,
        },
{
    let ghost s = w.entities@;
    let n: usize = w.entities.len();
    let mut j: usize = 0;
    while j < n
        invariant
            j <= n,
            n == s.len(),
            w.wf(),
            w.entities@ == s,
            laser.wf(),
            first_hit(s, *laser, 0, visited@) == first_hit(s, *laser, j as int, visited@),
        decreases n - j,
    {
        let t = w.entities[j];
        let t_is_enemy = match t.kind {
            Kind::Enemy(_) => true,
            _ => false,
        };
        if t_is_enemy && !contains_u64(visited, t.id) && entity_collide(laser, &t) {
            return Some(j);
        }
        j = j + 1;
    }
    None
}

/// Scan player projectiles against enemies, in registry order, with the
/// per-frame visited set: the detected pairs, before anything is touched.
pub fn detect_hits(w: &World) -> (pairs: Vec<(u64, u64)>)
    requires
        w.wf(),
    ensures
        pairs@ == detect_hits_spec(w.entities@),
        pairs@.len() <= w.entities@.len(),
{
    let ghost s = w.entities@;
    let n: usize = w.entities.len();
    let mut pairs: Vec<(u64, u64)> = Vec::new();
    let mut visited: Vec<u64> = Vec::new();
    let mut i: usize = 0;
    while i < n
        invariant
            i <= n,
            n == s.len(),
            w.wf(),
            w.entities@ == s,
            pairs@.len() <= i,
            detect_hits_spec(s) =~= pairs@ + detect_from(s, i as int, visited@),
        decreases n - i,
    {
        let ghost pairs0 = pairs@;
        let ghost v0 = visited@;
        let e = w.entities[i];
        let is_player_laser = match e.kind {
            Kind::Laser(Origin::FromPlayer) => true,
            _ => false,
        };
        if is_player_laser && !contains_u64(&visited, e.id) {
            match first_hit_scan(w, &e, &visited) {
                Some(j) => {
                    pairs.push((e.id, w.entities[j].id));
                    visited.push(e.id);
                    visited.push(w.entities[j].id);
                    proof {
                        let ghost jj = j as int;
                        assert(visited@ =~= v0.push(e.id).push(s[jj].id));
                        assert(detect_from(s, i as int, v0) =~= seq![(e.id, s[jj].id)]
                            + detect_from(s, i + 1, visited@));
                        assert(pairs@ =~= pairs0 + seq![(e.id, s[jj].id)]);
                        assert(pairs0 + (seq![(e.id, s[jj].id)] + detect_from(s, i + 1, visited@))
                            =~= pairs@ + detect_from(s, i + 1, visited@));
                    }
                },
                None => {},
            }
        }
        i = i + 1;
    }
    proof {
        assert(detect_from(s, n as int, visited@) =~= Seq::empty());
        assert(pairs@ + Seq::<(u64, u64)>::empty() =~= pairs@);
    }
    pairs
}

/// Resolve detected pairs against the registry, in the given order. The
/// skip-if-already-despawned guard makes the outcome safe for any
/// traversal order: each entity is despawned at most once, and the enemy
/// counter drops exactly once per removed enemy, so the counter invariant
/// is preserved whatever list of pairs is handed in.
pub fn apply_hits(w: &mut World, pairs: &Vec<(u64, u64)>)
    requires
        old(w).wf(),
        old(w).next_id as int + pairs@.len() <= u64::MAX,
    ensures
        final(w).wf(),
        ({
            let o = apply_from(
                old(w).entities@,
                old(w).next_id as int,
                old(w).enemy_count as int,
                pairs@,
            );
            final(w).entities@ == o.0 && final(w).next_id == o.1 && final(w).enemy_count == o.2
        }),
        final(w).next_id as int <= old(w).next_id as int + pairs@.len(),
        final(w).win == old(w).win,
        final(w).base_speed == old(w).base_speed,
        final(w).elapsed_us == old(w).elapsed_us,
        final(w).spawn_timer_us == old(w).spawn_timer_us,
        final(w).player_died == old(w).player_died,
        final(w).player_death_us == old(w).player_death_us,
{
    let ghost s0 = w.entities@;
    let ghost n0 = w.next_id as int;
    let ghost c0 = w.enemy_count as int;
    let m: usize = pairs.len();
    let mut k: usize = 0;
    while k < m
        invariant
            k <= m,
            m == pairs@.len(),
            w.wf(),
            n0 + m <= u64::MAX,
            w.next_id as int <= n0 + k,
            ({
                let o = apply_from(s0, n0, c0, pairs@.take(k as int));
                w.entities@ == o.0 && w.next_id as int == o.1 && w.enemy_count as int == o.2
            }),
            w.win == old(w).win,
            w.base_speed == old(w).base_speed,
            w.elapsed_us == old(w).elapsed_us,
            w.spawn_timer_us == old(w).spawn_timer_us,
            w.player_died == old(w).player_died,
            w.player_death_us == old(w).player_death_us,
        decreases m - k,
    {
        let pr = pairs[k];
        apply_one_hit(w, pr);
        proof {
            assert(pairs@.take(k + 1) =~= pairs@.take(k as int).push(pr));
            lemma_apply_from_push(s0, n0, c0, pairs@.take(k as int), pr);
        }
        k = k + 1;
    }
    proof {
        assert(pairs@.take(m as int) =~= pairs@);
    }
}

/// Despawn one entity and keep the population accounting consistent: if
/// the removed entity was an enemy, the counter drops by one.
fn despawn_accounted(w: &mut World, id: u64) -> (r: Option<Entity>)
    requires
        old(w).wf(),
    ensures
        final(w).wf(),
        final(w).entities@ == remove_id(old(w).entities@, id),
        match r {
            Some(e) => {
                &&& find_idx(old(w).entities@, id) >= 0
                &&& e == old(w).entities@[find_idx(old(w).entities@, id)]
            },
            None => find_idx(old(w).entities@, id) == -1,
        },
        final(w).enemy_count as int == old(w).enemy_count as int - ({
            let i = find_idx(old(w).entities@, id);
            if i >= 0 && old(w).entities@[i].is_enemy() {
                1int
            } else {
                0int
            }
        }),
        final(w).next_id == old(w).next_id,
        final(w).win == old(w).win,
        final(w).base_speed == old(w).base_speed,
        final(w).elapsed_us == old(w).elapsed_us,
        final(w).spawn_timer_us == old(w).spawn_timer_us,
        final(w).player_died == old(w).player_died,
        final(w).player_death_us == old(w).player_death_us,
{
    let ghost s_in = w.entities@;
    let r = w.despawn(id);
    proof {
        lemma_find_idx(s_in, id);
        let i = find_idx(s_in, id);
        if i >= 0 {
            lemma_count_remove(s_in, |e: Entity| e.is_enemy(), i);
            lemma_count_remove(s_in, |e: Entity| e.is_player(), i);
            lemma_remove_ids(s_in, i, w.next_id);
            if s_in[i].is_enemy() {
                lemma_count_positive(s_in, |e: Entity| e.is_enemy(), i);
            }
        }
    }
    match r {
        Some(e) => {
            let was_enemy = match e.kind {
                Kind::Enemy(_) => true,
                _ => false,
            };
            if was_enemy {
                w.enemy_count = w.enemy_count - 1;
            }
            Some(e)
        },
        None => None,
    }
}

/// Resolve a single pair, mirroring `apply_one`.
fn apply_one_hit(w: &mut World, pr: (u64, u64))
    requires
        old(w).wf(),
        old(w).next_id < u64::MAX,
    ensures
        final(w).wf(),
        ({
            let o = apply_one(old(w).entities@, old(w).next_id as int, old(w).enemy_count as int, pr);
            final(w).entities@ == o.0 && final(w).next_id == o.1 && final(w).enemy_count == o.2
        }),
        final(w).next_id as int <= old(w).next_id as int + 1,
        final(w).win == old(w).win,
        final(w).base_speed == old(w).base_speed,
        final(w).elapsed_us == old(w).elapsed_us,
        final(w).spawn_timer_us == old(w).spawn_timer_us,
        final(w).player_died == old(w).player_died,
        final(w).player_death_us == old(w).player_death_us,
{
    let ghost s_in = w.entities@;
    let laser_there = w.find_index(pr.0);
    let target_there = w.find_index(pr.1);
    if pr.0 != pr.1 && laser_there.is_some() && target_there.is_some() {
        proof {
            let li = laser_there.unwrap() as int;
            lemma_find_idx_of(s_in, pr.0, li);
            let ti = target_there.unwrap() as int;
            lemma_find_idx_of(s_in, pr.1, ti);
        }
        // despawn the target, then the projectile, each accounted
        let t = match despawn_accounted(w, pr.1) {
            Some(t) => t,
            None => vstd::pervasive::unreached(),
        };
        despawn_accounted(w, pr.0);
        // raise the explosion request at the target's last position
        let ghost s2 = w.entities@;
        let req = Entity {
            id: w.next_id,
            x: t.x,
            y: t.y,
            z: t.z,
            vel_x: 0,
            vel_y: 0,
            size_w: 0,
            size_h: 0,
            scale: FP,
            movable: false,
            auto_despawn: false,
            kind: Kind::ExplosionToSpawn,
        };
        w.entities.push(req);
        w.next_id = w.next_id + 1;
        proof {
            lemma_count_push(s2, |e: Entity| e.is_enemy(), req);
            lemma_count_push(s2, |e: Entity| e.is_player(), req);
            let ti = find_idx(s_in, pr.1);
            assert(t == s_in[ti]);
            let s1 = s_in.remove(ti);
            assert(remove_id(s_in, pr.1) == s1);
            assert(s2 == remove_id(s1, pr.0));
            assert(req == explosion_request(old(w).next_id, t.x, t.y, t.z));
            assert(w.entities@ == s2.push(req));
        }
    } else {
        proof {
            lemma_find_idx(s_in, pr.0);
            lemma_find_idx(s_in, pr.1);
            if laser_there is None && find_idx(s_in, pr.0) >= 0 {
                assert(s_in[find_idx(s_in, pr.0)].id == pr.0);
                assert(false);
            }
            if target_there is None && find_idx(s_in, pr.1) >= 0 {
                assert(s_in[find_idx(s_in, pr.1)].id == pr.1);
                assert(false);
            }
        }
    }
}

/// Player projectiles against enemies: detect all overlapping pairs with
/// the per-frame visited set, then despawn each pair, decrement the enemy
/// counter exactly once per destroyed enemy, and raise an explosion
/// request at each destroyed enemy's position.
pub fn player_laser_hit_enemy_system(w: &mut World)
    requires
        old(w).wf(),
        old(w).next_id as int + old(w).entities@.len() <= u64::MAX,
    ensures
        final(w).wf(),
        ({
            let o = apply_from(
                old(w).entities@,
                old(w).next_id as int,
                old(w).enemy_count as int,
                detect_hits_spec(old(w).entities@),
            );
            final(w).entities@ == o.0 && final(w).next_id == o.1 && final(w).enemy_count == o.2
        }),
        final(w).next_id as int <= old(w).next_id as int + old(w).entities@.len(),
        final(w).win == old(w).win,
        final(w).base_speed == old(w).base_speed,
        final(w).elapsed_us == old(w).elapsed_us,
        final(w).spawn_timer_us == old(w).spawn_timer_us,
        final(w).player_died == old(w).player_died,
        final(w).player_death_us == old(w).player_death_us,
{
    let pairs = detect_hits(w);
    apply_hits(w, &pairs);
}

/// Index of the first live player entity, or `-1`.
pub open spec fn find_player_idx(s: Seq<Entity>) -> int
    decreases s.len(),
{
    if s.len() == 0 {
        -1
    } else if s[0].is_player() {
        0
    } else {
        let r = find_player_idx(s.drop_first());
        if r < 0 {
            -1
        } else {
            1 + r
        }
    }
}

/// `find_player_idx` finds the first player, and `-1` exactly when there
/// is none.
pub proof fn lemma_find_player_idx(s: Seq<Entity>)
    ensures
        find_player_idx(s) == -1 ==> forall|i: int| 0 <= i < s.len() ==> !s[i].is_player(),
        find_player_idx(s) >= 0 ==> {
            let r = find_player_idx(s);
            &&& 0 <= r < s.len()
            &&& s[r].is_player()
            &&& forall|i: int| 0 <= i < r ==> !s[i].is_player()
        },
    decreases s.len(),
{
    if s.len() > 0 && !s[0].is_player() {
        lemma_find_player_idx(s.drop_first());
        let t = s.drop_first();
        let rt = find_player_idx(t);
        if rt == -1 {
            assert forall|i: int| 0 <= i < s.len() implies !s[i].is_player() by {
                if i > 0 {
                    assert(t[i - 1] == s[i]);
                }
            }
        } else {
            assert(t[rt] == s[rt + 1]);
            assert forall|i: int| 0 <= i < rt + 1 implies !s[i].is_player() by {
                if i > 0 {
                    assert(t[i - 1] == s[i]);
                }
            }
        }
    }
}

/// Index of the first enemy projectile at or after `j` whose bounding box
/// overlaps the player's, or `-1`.
pub open spec fn first_player_hit(s: Seq<Entity>, player: Entity, j: int) -> int
    decreases s.len() - j,
{
    if j < 0 || j >= s.len() {
        -1
    } else if s[j].is_laser_from(Origin::FromEnemy) && overlaps(s[j], player) {
        j
    } else {
        first_player_hit(s, player, j + 1)
    }
}

/// What a nonnegative result of `first_player_hit` means.
pub proof fn lemma_first_player_hit_char(s: Seq<Entity>, player: Entity, j0: int)
    requires
        j0 >= 0,
    ensures
        ({
            let r = first_player_hit(s, player, j0);
            r >= 0 ==> j0 <= r < s.len() && s[r].is_laser_from(Origin::FromEnemy) && overlaps(
                s[r],
                player,
            )
        }),
    decreases s.len() - j0,
{
    if 0 <= j0 < s.len() {
        if !(s[j0].is_laser_from(Origin::FromEnemy) && overlaps(s[j0], player)) {
            lemma_first_player_hit_char(s, player, j0 + 1);
        }
    }
}

/// Find the first live player in the registry.
pub fn find_player(w: &World) -> (r: Option<usize>)
    ensures
        match r {
            Some(i) => i < w.entities@.len() && find_player_idx(w.entities@) == i as int,
            None => find_player_idx(w.entities@) == -1,
        },
{
    let ghost s = w.entities@;
    let n: usize = w.entities.len();
    let mut i: usize = 0;
    while i < n
        invariant
            i <= n,
            n == s.len(),
            w.entities@ == s,
            forall|j: int| 0 <= j < i ==> !s[j].is_player(),
        decreases n - i,
    {
        let is_p = match w.entities[i].kind {
            Kind::Player => true,
            _ => false,
        };
        if is_p {
            proof {
                lemma_find_player_idx(s);
                let r = find_player_idx(s);
                if r == -1 {
                    assert(!s[i as int].is_player());
                }
                if r < i as int {
                    assert(!s[r].is_player());
                }
                if r > i as int {
                    assert(!s[i as int].is_player());
                }
            }
            return Some(i);
        }
        i = i + 1;
    }
    proof {
        lemma_find_player_idx(s);
        if find_player_idx(s) >= 0 {
            assert(s[find_player_idx(s)].is_player());
            assert(false);
        }
    }
    None
}

/// Find the first enemy projectile overlapping the player.
fn scan_player_hit(w: &World, player: &Entity) -> (r: Option<usize>)
    requires
        w.wf(),
        player.wf(),
    ensures
        match r {
            Some(j) => j < w.entities@.len() && first_player_hit(w.entities@, *player, 0)
                == j as int,
            None => first_player_hit(w.entities@, *player, 0) == -1,
        },
{
    let ghost s = w.entities@;
    let n: usize = w.entities.len();
    let mut j: usize = 0;
    while j < n
        invariant
            j <= n,
            n == s.len(),
            w.wf(),
            w.entities@ == s,
            player.wf(),
            first_player_hit(s, *player, 0) == first_player_hit(s, *player, j as int),
        decreases n - j,
    {
        let t = w.entities[j];
        let is_enemy_laser = match t.kind {
            Kind::Laser(Origin::FromEnemy) => true,
            _ => false,
        };
        if is_enemy_laser && entity_collide(&t, player) {
            return Some(j);
        }
        j = j + 1;
    }
    None
}

/// Enemy projectiles against the player: if a player is live and some
/// enemy projectile overlaps it, both are despawned, an explosion request
/// is raised at the player's position, and the destruction timestamp is
/// recorded for respawn gating. With no live player the pass is a no-op,
/// and the enemy counter is never touched.
pub fn enemy_laser_hit_system(w: &mut World)
    requires
        old(w).wf(),
        old(w).next_id < u64::MAX,
    ensures
        final(w).wf(),
        ({
            let s = old(w).entities@;
            let pi = find_player_idx(s);
            let hj = if pi >= 0 {
                first_player_hit(s, s[pi], 0)
            } else {
                -1
            };
            if pi >= 0 && hj >= 0 {
                let p = s[pi];
                &&& final(w).entities@ == remove_id(remove_id(s, p.id), s[hj].id).push(
                    explosion_request(old(w).next_id, p.x, p.y, p.z),
                )
                &&& final(w).next_id == old(w).next_id + 1
                &&& final(w).player_died
                &&& final(w).player_death_us == old(w).elapsed_us
            } else {
                &&& final(w).entities@ == s
                &&& final(w).next_id == old(w).next_id
                &&& final(w).player_died == old(w).player_died
                &&& final(w).player_death_us == old(w).player_death_us
            }
        }),
        final(w).next_id as int <= old(w).next_id as int + 1,
        final(w).enemy_count == old(w).enemy_count,
        final(w).win == old(w).win,
        final(w).base_speed == old(w).base_speed,
        final(w).elapsed_us == old(w).elapsed_us,
        final(w).spawn_timer_us == old(w).spawn_timer_us,
{
    let ghost s = w.entities@;
    let pi = match find_player(w) {
        Some(pi) => pi,
        None => {
            return ;
        },
    };
    let player = w.entities[pi];
    proof {
        lemma_find_player_idx(s);
    }
    let hj = match scan_player_hit(w, &player) {
        Some(hj) => hj,
        None => {
            return ;
        },
    };
    let laser = w.entities[hj];
    proof {
        lemma_first_player_hit_char(s, player, 0);
        assert forall|j: int| 0 <= j < pi implies s[j].id != player.id by {
            assert(s[j].id != s[pi as int].id);
        }
        lemma_find_idx_of(s, player.id, pi as int);
    }
    let t = match despawn_accounted(w, player.id) {
        Some(t) => t,
        None => vstd::pervasive::unreached(),
    };
    let ghost s1 = remove_id(s, player.id);
    proof {
        // the projectile is still live after the player's removal
        let ghost hji = hj as int;
        let ghost pii = pi as int;
        let ghost hj1: int = if hji < pii {
            hji
        } else {
            hji - 1
        };
        // the projectile and the player are different entities
        assert(hji != pii);
        assert(s1 =~= s.remove(pii));
        assert(s1[hj1] == s[hji]);
        lemma_find_idx(s1, laser.id);
        let fi = find_idx(s1, laser.id);
        if fi < 0 {
            assert(s1[hj1].id == laser.id);
            assert(false);
        }
        // identifiers are unique in the intermediate registry, so the
        // found entity is the projectile itself (not an enemy)
        assert(seq_ids_unique(s1));
        if fi != hj1 {
            if fi < hj1 {
                assert(s1[fi].id != s1[hj1].id);
            } else {
                assert(s1[hj1].id != s1[fi].id);
            }
            assert(false);
        }
        assert(s1[fi] == laser);
        assert(!laser.is_enemy());
    }
    despawn_accounted(w, laser.id);
    let req = Entity {
        id: w.next_id,
        x: player.x,
        y: player.y,
        z: player.z,
        vel_x: 0,
        vel_y: 0,
        size_w: 0,
        size_h: 0,
        scale: FP,
        movable: false,
        auto_despawn: false,
        kind: Kind::ExplosionToSpawn,
    };
    let ghost s2 = w.entities@;
    w.entities.push(req);
    w.next_id = w.next_id + 1;
    w.player_died = true;
    w.player_death_us = w.elapsed_us;
    proof {
        lemma_count_push(s2, |e: Entity| e.is_enemy(), req);
        lemma_count_push(s2, |e: Entity| e.is_player(), req);
        assert(req == explosion_request(old(w).next_id, player.x, player.y, player.z));
    }
}

} // verus!
