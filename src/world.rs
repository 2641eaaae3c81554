//! The entity store and the per-tick systems that move entities, resolve
//! hits, and spawn and retire players, enemies, lasers and explosions.
use vstd::prelude::*;
use crate::geometry::{
    Pos, Extent, WinSize, COORD_MAX, coord_ok, move_toward_spec, dist_spec, overlaps, overlaps_spec, beyond_margin, beyond_margin_spec};
use crate::formation::{
    Formation, FormationMaker, FORMATION_STEP, spawn_room, spawn_span_ok, formation_spec, RADIUS_X_MIN, RADIUS_X_MAX,
    RADIUS_Y_MIN, RADIUS_Y_MAX,
};
use crate::state::{
    PlayerState, EnemyCount, ExplosionTimer, ENEMY_MAX, EXPLOSION_LEN, may_respawn_spec, tick_spec,
};

verus! {

/// Distance covered in one tick at unit velocity, in milli-units: the base
/// speed times the tick, rounded down.
pub const BASE_STEP: i64 = 8_333;

/// Largest magnitude of a velocity component.
pub const VELOCITY_MAX: i64 = 1_000;

/// Largest sprite width or height, in milli-units.
pub const SIZE_MAX: i64 = 1_000_000;

/// Largest render scale, in thousandths.
pub const SCALE_MAX: i64 = 10_000;

/// Render scale of every sprite, in thousandths.
pub const SPRITE_SCALE: i64 = 500;

/// Sprite sizes, in milli-units.
pub const PLAYER_W: i64 = 144_000;
pub const PLAYER_H: i64 = 75_000;
pub const PLAYER_LASER_W: i64 = 9_000;
pub const PLAYER_LASER_H: i64 = 54_000;
pub const ENEMY_W: i64 = 144_000;
pub const ENEMY_H: i64 = 75_000;
pub const ENEMY_LASER_W: i64 = 17_000;
pub const ENEMY_LASER_H: i64 = 55_000;

/// Vertical offset between a ship and the lasers it fires, in milli-units.
pub const LASER_OFFSET: i64 = 15_000;

/// Gap between the player and the bottom edge, in milli-units.
pub const PLAYER_BOTTOM_GAP: i64 = 5_000;

/// Who fired a laser.
#[derive(Clone, Copy, Debug, PartialEq, Eq, Structural)]
pub enum Owner {
    FromPlayer,
    FromEnemy,
}

/// What an entity is, with the data that only that kind carries.
#[derive(Clone, Copy, Debug, PartialEq, Eq)]
pub enum Kind {
    Player,
    Enemy(Formation),
    Laser(Owner),
    /// Marks where an explosion is to appear.
    PendingExplosion,
    Explosion(ExplosionTimer),
}

/// A direction of travel, as a multiple of the base speed.
#[derive(Clone, Copy, Debug, PartialEq, Eq, Structural)]
pub struct Velocity {
    pub x: i64,
    pub y: i64,
}

/// How an entity moves by itself each tick.
#[derive(Clone, Copy, Debug, PartialEq, Eq, Structural)]
pub enum Motion {
    Still,
    /// Straight-line travel; with `auto_despawn` the entity is removed once it
    /// is beyond the playfield's margin.
    Moving { velocity: Velocity, auto_despawn: bool },
}

/// One live entity.
#[derive(Clone, Copy, Debug, PartialEq, Eq)]
pub struct Entity {
    pub id: u64,
    pub kind: Kind,
    pub pos: Pos,
    /// Sprite size before scaling, in milli-units.
    pub size: Extent,
    /// Render scale, in thousandths.
    pub scale: i64,
    pub motion: Motion,
}

pub open spec fn is_player(e: Entity) -> bool {
    e.kind is Player
}

pub open spec fn is_enemy(e: Entity) -> bool {
    e.kind is Enemy
}

pub open spec fn is_laser_from(e: Entity, o: Owner) -> bool {
    e.kind == Kind::Laser(o)
}

/// Selects enemies, for `count`.
pub open spec fn enemies() -> spec_fn(Entity) -> bool {
    |e: Entity| is_enemy(e)
}

/// Selects players, for `count`.
pub open spec fn players() -> spec_fn(Entity) -> bool {
    |e: Entity| is_player(e)
}

impl Entity {
    pub open spec fn wf(self) -> bool {
        &&& self.pos.wf()
        &&& 0 <= self.size.w <= SIZE_MAX
        &&& 0 <= self.size.h <= SIZE_MAX
        &&& 0 <= self.scale <= SCALE_MAX
        &&& match self.motion {
            Motion::Still => true,
            Motion::Moving { velocity, .. } => -VELOCITY_MAX <= velocity.x <= VELOCITY_MAX
                && -VELOCITY_MAX <= velocity.y <= VELOCITY_MAX,
        }
        &&& match self.kind {
            Kind::Player => self.motion matches Motion::Moving { auto_despawn: false, .. },
            Kind::Enemy(f) => f.wf() && self.motion is Still,
            Kind::Laser(_) => self.motion matches Motion::Moving { auto_despawn: true, .. },
            Kind::PendingExplosion => self.motion is Still,
            Kind::Explosion(t) => t.wf() && self.motion is Still,
        }
    }

    /// The box used for hits: the sprite size times the render scale.
    pub open spec fn extent_spec(self) -> Extent {
        Extent { w: (self.size.w * self.scale / 1000) as i64, h: (self.size.h * self.scale / 1000) as i64 }
    }

    pub fn is_laser_of(&self, o: Owner) -> (r: bool)
        ensures
            r == is_laser_from(*self, o),
    {
        match self.kind {
            Kind::Laser(x) => x == o,
            _ => false,
        }
    }

    pub fn extent(&self) -> (r: Extent)
        requires
            self.wf(),
        ensures
            r == self.extent_spec(),
            r.wf(),
    {
        assert(0 <= self.size.w * self.scale <= SIZE_MAX * SCALE_MAX) by (nonlinear_arith)
            requires
                0 <= self.size.w <= SIZE_MAX,
                0 <= self.scale <= SCALE_MAX,
        ;
        assert(0 <= self.size.h * self.scale <= SIZE_MAX * SCALE_MAX) by (nonlinear_arith)
            requires
                0 <= self.size.h <= SIZE_MAX,
                0 <= self.scale <= SCALE_MAX,
        ;
        Extent { w: self.size.w * self.scale / 1000, h: self.size.h * self.scale / 1000 }
    }
}

/// Whether two entities' boxes overlap.
pub open spec fn collide(a: Entity, b: Entity) -> bool {
    overlaps_spec(a.pos, a.extent_spec(), b.pos, b.extent_spec())
}

/// The entities of `s` whose mark in `gone` is not set, in order.
pub open spec fn kept(s: Seq<Entity>, gone: Seq<bool>) -> Seq<Entity>
    decreases s.len(),
{
    if s.len() == 0 {
        Seq::empty()
    } else {
        let rest = kept(s.drop_last(), gone);
        if gone[s.len() - 1] {
            rest
        } else {
            rest.push(s.last())
        }
    }
}

/// How many entities of `s` satisfy `p`.
pub open spec fn count(s: Seq<Entity>, p: spec_fn(Entity) -> bool) -> nat
    decreases s.len(),
{
    if s.len() == 0 {
        0
    } else {
        count(s.drop_last(), p) + if p(s.last()) { 1nat } else { 0nat }
    }
}

/// How many entities of `s` satisfy `p` and are marked in `gone`.
pub open spec fn count_gone(s: Seq<Entity>, gone: Seq<bool>, p: spec_fn(Entity) -> bool) -> nat
    decreases s.len(),
{
    if s.len() == 0 {
        0
    } else {
        count_gone(s.drop_last(), gone, p) + if p(s.last()) && gone[s.len() - 1] {
            1nat
        } else {
            0nat
        }
    }
}

/// Ids rise strictly along the sequence and stay below `bound`.
pub open spec fn ids_ordered(s: Seq<Entity>, bound: int) -> bool {
    &&& forall|i: int, j: int| 0 <= i < j < s.len() ==> s[i].id < s[j].id
    &&& forall|i: int| 0 <= i < s.len() ==> s[i].id < bound
}

pub open spec fn all_wf(s: Seq<Entity>) -> bool {
    forall|i: int| 0 <= i < s.len() ==> s[i].wf()
}

proof fn lemma_kept_preserves(s: Seq<Entity>, gone: Seq<bool>, bound: int)
    requires
        gone.len() >= s.len(),
        ids_ordered(s, bound),
        forall|i: int| 0 <= i < s.len() && !gone[i] ==> s[i].wf(),
    ensures
        ids_ordered(kept(s, gone), bound),
        all_wf(kept(s, gone)),
        kept(s, gone).len() <= s.len(),
        s.len() > 0 ==> forall|k: int| 0 <= k < kept(s, gone).len() ==> kept(s, gone)[k].id <= s.last().id,
    decreases s.len(),
{
    if s.len() > 0 {
        let t = s.drop_last();
        lemma_kept_preserves(t, gone, bound);
        if t.len() > 0 {
            assert(t.last().id < s.last().id);
        }
    }
}

proof fn lemma_count_kept(s: Seq<Entity>, gone: Seq<bool>, p: spec_fn(Entity) -> bool)
    requires
        gone.len() >= s.len(),
    ensures
        count(kept(s, gone), p) + count_gone(s, gone, p) == count(s, p),
    decreases s.len(),
{
    if s.len() > 0 {
        let t = s.drop_last();
        lemma_count_kept(t, gone, p);
        let k = kept(t, gone);
        if !gone[s.len() - 1] {
            assert(k.push(s.last()).drop_last() == k);
        }
    }
}

proof fn lemma_count_gone_mark(s: Seq<Entity>, gone: Seq<bool>, j: int, p: spec_fn(Entity) -> bool)
    requires
        gone.len() >= s.len(),
        0 <= j < s.len(),
        !gone[j],
    ensures
        count_gone(s, gone.update(j, true), p) == count_gone(s, gone, p) + if p(s[j]) { 1nat } else { 0nat },
    decreases s.len(),
{
    let t = s.drop_last();
    if j < s.len() - 1 {
        lemma_count_gone_mark(t, gone, j, p);
    } else {
        lemma_count_gone_same(t, gone, gone.update(j, true), p);
    }
}

proof fn lemma_count_gone_same(s: Seq<Entity>, g1: Seq<bool>, g2: Seq<bool>, p: spec_fn(Entity) -> bool)
    requires
        g1.len() >= s.len(),
        g2.len() >= s.len(),
        forall|i: int| 0 <= i < s.len() ==> g1[i] == g2[i],
    ensures
        count_gone(s, g1, p) == count_gone(s, g2, p),
    decreases s.len(),
{
    if s.len() > 0 {
        lemma_count_gone_same(s.drop_last(), g1, g2, p);
    }
}

proof fn lemma_count_none_gone(s: Seq<Entity>, gone: Seq<bool>, p: spec_fn(Entity) -> bool)
    requires
        gone.len() >= s.len(),
        forall|i: int| 0 <= i < s.len() && gone[i] ==> !p(s[i]),
    ensures
        count_gone(s, gone, p) == 0,
    decreases s.len(),
{
    if s.len() > 0 {
        lemma_count_none_gone(s.drop_last(), gone, p);
    }
}

proof fn lemma_count_push(s: Seq<Entity>, e: Entity, p: spec_fn(Entity) -> bool)
    ensures
        count(s.push(e), p) == count(s, p) + if p(e) { 1nat } else { 0nat },
{
    assert(s.push(e).drop_last() == s);
}

proof fn lemma_count_update(s: Seq<Entity>, j: int, e: Entity, p: spec_fn(Entity) -> bool)
    requires
        0 <= j < s.len(),
        p(e) == p(s[j]),
    ensures
        count(s.update(j, e), p) == count(s, p),
    decreases s.len(),
{
    let t = s.drop_last();
    if j < s.len() - 1 {
        lemma_count_update(t, j, e, p);
        assert(s.update(j, e).drop_last() == t.update(j, e));
    } else {
        assert(s.update(j, e).drop_last() == t);
    }
}

proof fn lemma_count_zero(s: Seq<Entity>, p: spec_fn(Entity) -> bool)
    ensures
        count(s, p) == 0 <==> forall|i: int| 0 <= i < s.len() ==> !p(s[i]),
    decreases s.len(),
{
    if s.len() > 0 {
        lemma_count_zero(s.drop_last(), p);
        if count(s, p) == 0 {
            assert forall|i: int| 0 <= i < s.len() implies !p(s[i]) by {
                if i < s.len() - 1 {
                    assert(s[i] == s.drop_last()[i]);
                }
            }
        } else {
            if count(s.drop_last(), p) > 0 {
                let i = choose|i: int| 0 <= i < s.len() - 1 && p(s.drop_last()[i]);
                assert(s[i] == s.drop_last()[i]);
            }
        }
    }
}

/// The entities whose mark in `gone` is not set, in order.
pub fn retain_unmarked(v: &Vec<Entity>, gone: &Vec<bool>) -> (r: Vec<Entity>)
    requires
        gone.len() == v.len(),
    ensures
        r@ == kept(v@, gone@),
{
    let mut out: Vec<Entity> = Vec::new();
    let mut k: usize = 0;
    while k < v.len()
        invariant
            k <= v.len(),
            gone.len() == v.len(),
            out@ == kept(v@.subrange(0, k as int), gone@),
        decreases v.len() - k,
    {
        assert(v@.subrange(0, k + 1).drop_last() == v@.subrange(0, k as int));
        if !gone[k] {
            out.push(v[k]);
        }
        k = k + 1;
    }
    assert(v@.subrange(0, v.len() as int) == v@);
    out
}

/// The live entities, with the counters and states that follow them.
pub struct World {
    pub entities: Vec<Entity>,
    /// The id that the next created entity gets; ids are never reused.
    pub next_id: u64,
    pub enemy_count: EnemyCount,
    pub player_state: PlayerState,
    pub formation_maker: FormationMaker,
    pub win: WinSize,
}

/// The systems that create entities ask for `next_id` below this bound, so
/// that the few ids one call hands out always fit in a `u64`.
pub const ID_LIMIT: u64 = 0xffff_ffff_ffff_0000;

impl World {
    pub open spec fn wf(self) -> bool {
        &&& self.win.wf()
        &&& all_wf(self.entities@)
        &&& ids_ordered(self.entities@, self.next_id as int)
        &&& self.enemy_count.wf()
        &&& self.enemy_count.count == count(self.entities@, enemies())
        &&& count(self.entities@, players()) <= 1
        &&& self.player_state.on == (count(self.entities@, players()) == 1)
    }

    /// An empty playfield of the given size.
    pub fn new(win: WinSize) -> (r: World)
        requires
            win.wf(),
        ensures
            r.wf(),
            r.entities@.len() == 0,
            r.next_id == 0,
            r.enemy_count.count == 0,
            r.player_state == (PlayerState { on: false, last_shot: None }),
            r.win == win,
    {
        World {
            entities: Vec::new(),
            next_id: 0,
            enemy_count: EnemyCount::new(),
            player_state: PlayerState::default(),
            formation_maker: FormationMaker::new(),
            win,
        }
    }
}

/// A pending explosion at `pos` with id `id`.
pub open spec fn pending_at(id: u64, pos: Pos) -> Entity {
    Entity {
        id,
        kind: Kind::PendingExplosion,
        pos,
        size: Extent { w: 0, h: 0 },
        scale: 1000,
        motion: Motion::Still,
    }
}

/// Index `i` is one side of some pair of `hits`.
pub open spec fn in_hits(hits: Seq<(usize, usize)>, i: int) -> bool {
    exists|k: int| 0 <= k < hits.len() && (hits[k].0 == i || hits[k].1 == i)
}

/// The marks of the indices below `n` that some pair of `hits` names.
pub open spec fn hit_marks(hits: Seq<(usize, usize)>, n: nat) -> Seq<bool> {
    Seq::new(n, |i: int| in_hits(hits, i))
}

/// Each pair is a player's laser and an enemy of `s` whose boxes overlap.
pub open spec fn hits_valid(s: Seq<Entity>, hits: Seq<(usize, usize)>) -> bool {
    forall|k: int|
        0 <= k < hits.len() ==> {
            &&& #[trigger] hits[k].0 < s.len()
            &&& hits[k].1 < s.len()
            &&& is_laser_from(s[hits[k].0 as int], Owner::FromPlayer)
            &&& is_enemy(s[hits[k].1 as int])
            &&& collide(s[hits[k].0 as int], s[hits[k].1 as int])
        }
}

/// No laser and no enemy takes part in two pairs.
pub open spec fn hits_disjoint(hits: Seq<(usize, usize)>) -> bool {
    forall|a: int, b: int|
        0 <= a < b < hits.len() ==> hits[a].0 != hits[b].0 && hits[a].1 != hits[b].1
}

/// No player's laser and enemy that both stay unpaired overlap.
pub open spec fn hits_maximal(s: Seq<Entity>, hits: Seq<(usize, usize)>) -> bool {
    forall|l: int, e: int|
        0 <= l < s.len() && 0 <= e < s.len() && is_laser_from(s[l], Owner::FromPlayer)
            && is_enemy(s[e]) && !in_hits(hits, l) && !in_hits(hits, e) ==> !collide(s[l], s[e])
}

proof fn lemma_hit_marks_push(hits: Seq<(usize, usize)>, l: usize, e: usize, i: int)
    ensures
        in_hits(hits.push((l, e)), i) == (in_hits(hits, i) || i == l || i == e),
{
    let h2 = hits.push((l, e));
    if in_hits(hits, i) {
        let k = choose|k: int| 0 <= k < hits.len() && (hits[k].0 == i || hits[k].1 == i);
        assert(h2[k] == hits[k]);
    }
    if i == l || i == e {
        assert(h2[hits.len() as int] == (l, e));
    }
    if in_hits(h2, i) {
        let k = choose|k: int| 0 <= k < h2.len() && (h2[k].0 == i || h2[k].1 == i);
        if k < hits.len() {
            assert(h2[k] == hits[k]);
        }
    }
}

/// Pairs each player's laser with the first enemy, in store order, that its
/// box overlaps and that no earlier laser took; a laser or an enemy takes
/// part in one pair at most. Returns the (laser index, enemy index) pairs and
/// the resolved set: a mark for each index that takes part in a pair.
pub fn find_player_laser_hits(v: &Vec<Entity>) -> (r: (Vec<(usize, usize)>, Vec<bool>))
    requires
        all_wf(v@),
    ensures
        r.1@ == hit_marks(r.0@, v@.len()),
        hits_valid(v@, r.0@),
        hits_disjoint(r.0@),
        hits_maximal(v@, r.0@),
        count_gone(v@, r.1@, enemies()) == r.0@.len(),
        count_gone(v@, r.1@, players()) == 0,
{
    let n: usize = v.len();
    let mut gone: Vec<bool> = Vec::new();
    let mut i: usize = 0;
    while i < n
        invariant
            i <= n,
            n == v.len(),
            gone.len() == i,
            forall|j: int| 0 <= j < i ==> !gone[j],
        decreases n - i,
    {
        gone.push(false);
        i = i + 1;
    }
    let mut hits: Vec<(usize, usize)> = Vec::new();
    proof {
        lemma_count_none_gone(v@, gone@, enemies());
        lemma_count_none_gone(v@, gone@, players());
    }
    let mut l: usize = 0;
    while l < n
        invariant
            l <= n,
            n == v.len(),
            all_wf(v@),
            gone.len() == n,
            forall|j: int| 0 <= j < n ==> gone[j] == in_hits(hits@, j),
            hits_valid(v@, hits@),
            hits_disjoint(hits@),
            forall|k: int| 0 <= k < hits.len() ==> hits[k].0 < l,
            forall|a: int, e: int|
                0 <= a < l && 0 <= e < n && is_laser_from(v@[a], Owner::FromPlayer) && is_enemy(
                    v@[e],
                ) && !gone[a] && !gone[e] ==> !collide(v@[a], v@[e]),
            count_gone(v@, gone@, enemies()) == hits@.len(),
            count_gone(v@, gone@, players()) == 0,
        decreases n - l,
    {
        if v[l].is_laser_of(Owner::FromPlayer) && !gone[l] {
            let el = v[l].extent();
            let mut e: usize = 0;
            while e < n
                invariant
                    l < n,
                    e <= n,
                    n == v.len(),
                    all_wf(v@),
                    gone.len() == n,
                    is_laser_from(v@[l as int], Owner::FromPlayer),
                    el == v@[l as int].extent_spec(),
                    el.wf(),
                    forall|j: int| 0 <= j < n ==> gone[j] == in_hits(hits@, j),
                    hits_valid(v@, hits@),
                    hits_disjoint(hits@),
                    forall|k: int| 0 <= k < hits.len() ==> hits[k].0 <= l,
                    forall|k: int| 0 <= k < hits.len() && hits[k].0 == l ==> gone[l as int],
                    forall|a: int, b: int|
                        0 <= a < l && 0 <= b < n && is_laser_from(v@[a], Owner::FromPlayer)
                            && is_enemy(v@[b]) && !gone[a] && !gone[b] ==> !collide(v@[a], v@[b]),
                    !gone[l as int] ==> forall|b: int|
                        0 <= b < e && is_enemy(v@[b]) && !gone[b] ==> !collide(v@[l as int], v@[b]),
                    count_gone(v@, gone@, enemies()) == hits@.len(),
                    count_gone(v@, gone@, players()) == 0,
                decreases n - e,
            {
                if !gone[l] && !gone[e] {
                    if let Kind::Enemy(_) = v[e].kind {
                        if overlaps(v[l].pos, el, v[e].pos, v[e].extent()) {
                            proof {
                                lemma_count_gone_mark(v@, gone@, e as int, enemies());
                                lemma_count_gone_mark(v@, gone@, e as int, players());
                                let g1 = gone@.update(e as int, true);
                                lemma_count_gone_mark(v@, g1, l as int, enemies());
                                lemma_count_gone_mark(v@, g1, l as int, players());
                                assert forall|j: int| 0 <= j < n implies g1.update(l as int, true)[j]
                                    == in_hits(hits@.push((l, e)), j) by {
                                    lemma_hit_marks_push(hits@, l, e, j);
                                }
                                assert forall|k: int| 0 <= k < hits.len() implies hits[k].0 != l
                                    && hits[k].1 != e by {
                                    assert(hits[k].0 == l ==> in_hits(hits@, l as int));
                                    assert(hits[k].1 == e ==> in_hits(hits@, e as int));
                                }
                            }
                            gone.set(e, true);
                            gone.set(l, true);
                            hits.push((l, e));
                            proof {
                                assert(forall|j: int| 0 <= j < n ==> gone[j] == in_hits(hits@, j));
                            }
                        }
                    }
                }
                e = e + 1;
            }
        }
        l = l + 1;
    }
    proof {
        assert(gone@ == hit_marks(hits@, v@.len()));
    }
    (hits, gone)
}

impl World {
    /// Appends an entity made of the given parts, under the next id.
    fn create(&mut self, kind: Kind, pos: Pos, size: Extent, scale: i64, motion: Motion)
        requires
            old(self).next_id < u64::MAX,
            ids_ordered(old(self).entities@, old(self).next_id as int),
            all_wf(old(self).entities@),
            (Entity { id: 0, kind, pos, size, scale, motion }).wf(),
        ensures
            final(self).entities@ == old(self).entities@.push(
                Entity { id: old(self).next_id, kind, pos, size, scale, motion },
            ),
            final(self).next_id == old(self).next_id + 1,
            ids_ordered(final(self).entities@, final(self).next_id as int),
            all_wf(final(self).entities@),
            final(self).enemy_count == old(self).enemy_count,
            final(self).player_state == old(self).player_state,
            final(self).formation_maker == old(self).formation_maker,
            final(self).win == old(self).win,
    {
        let id: u64 = self.next_id;
        self.entities.push(Entity { id, kind, pos, size, scale, motion });
        self.next_id = id + 1;
    }
}

/// Pending explosions with ids from `first` at the enemies of `hits`, in order.
pub open spec fn pendings_for(s: Seq<Entity>, hits: Seq<(usize, usize)>, first: int, k: nat) -> Seq<Entity> {
    Seq::new(k, |j: int| pending_at((first + j) as u64, s[hits[j].1 as int].pos))
}

impl World {
    /// Resolves player's lasers against enemies for one tick (see
    /// `find_player_laser_hits`). Each paired laser and enemy is removed, a
    /// pending explosion appears at the enemy's position, and the enemy count
    /// drops by one per removed enemy. Returns the pairs, as indices into the
    /// store before the call.
    pub fn player_lasers_hit_enemies(&mut self) -> (hits: Vec<(usize, usize)>)
        requires
            old(self).wf(),
            old(self).next_id < ID_LIMIT,
        ensures
            final(self).wf(),
            hits_valid(old(self).entities@, hits@),
            hits_disjoint(hits@),
            hits_maximal(old(self).entities@, hits@),
            final(self).entities@ == kept(
                old(self).entities@,
                hit_marks(hits@, old(self).entities@.len()),
            ) + pendings_for(old(self).entities@, hits@, old(self).next_id as int, hits@.len()),
            final(self).next_id == old(self).next_id + hits@.len(),
            final(self).enemy_count.count == old(self).enemy_count.count - hits@.len(),
            final(self).player_state == old(self).player_state,
            final(self).formation_maker == old(self).formation_maker,
            final(self).win == old(self).win,
    {
        let ghost s0 = self.entities@;
        let ghost id0 = self.next_id;
        let (hits, gone) = find_player_laser_hits(&self.entities);
        let kv = retain_unmarked(&self.entities, &gone);
        let mut spots: Vec<Pos> = Vec::new();
        let mut k: usize = 0;
        while k < hits.len()
            invariant
                k <= hits.len(),
                self.entities@ == s0,
                hits_valid(s0, hits@),
                spots@.len() == k,
                forall|j: int| 0 <= j < k ==> spots@[j] == s0[hits@[j].1 as int].pos,
            decreases hits.len() - k,
        {
            assert(hits@[k as int].0 < s0.len());
            spots.push(self.entities[hits[k].1].pos);
            k = k + 1;
        }
        proof {
            lemma_kept_preserves(s0, gone@, id0 as int);
            lemma_count_kept(s0, gone@, enemies());
            lemma_count_kept(s0, gone@, players());
            assert(hits@.len() <= 2);
        }
        self.entities = kv;
        let mut k: usize = 0;
        while k < hits.len()
            invariant
                k <= hits.len() <= 2,
                id0 < ID_LIMIT,
                all_wf(s0),
                hits_valid(s0, hits@),
                spots@.len() == hits@.len(),
                forall|j: int| 0 <= j < hits@.len() ==> spots@[j] == s0[hits@[j].1 as int].pos,
                self.next_id == id0 + k,
                self.entities@ == kv@ + pendings_for(s0, hits@, id0 as int, k as nat),
                ids_ordered(self.entities@, self.next_id as int),
                all_wf(self.entities@),
                count(self.entities@, enemies()) == count(kv@, enemies()),
                count(self.entities@, players()) == count(kv@, players()),
                self.enemy_count == old(self).enemy_count,
                self.player_state == old(self).player_state,
                self.formation_maker == old(self).formation_maker,
                self.win == old(self).win,
            decreases hits.len() - k,
        {
            let e: usize = hits[k].1;
            assert(hits@[k as int].0 < s0.len());
            assert(s0[e as int].wf());
            let ghost before = self.entities@;
            self.create(
                Kind::PendingExplosion,
                spots[k],
                Extent { w: 0, h: 0 },
                1000,
                Motion::Still,
            );
            proof {
                let p = pending_at((id0 + k) as u64, s0[e as int].pos);
                lemma_count_push(before, p, enemies());
                lemma_count_push(before, p, players());
                assert(self.entities@ =~= kv@ + pendings_for(s0, hits@, id0 as int, (k + 1) as nat));
            }
            k = k + 1;
        }
        self.enemy_count.count = self.enemy_count.count - hits.len() as u32;
        hits
    }
}

/// Marks for the indices `a` and `b` among `n`.
pub open spec fn two_marks(n: nat, a: int, b: int) -> Seq<bool> {
    Seq::new(n, |i: int| i == a || i == b)
}

fn marks_for_two(n: usize, a: usize, b: usize) -> (r: Vec<bool>)
    ensures
        r@ == two_marks(n as nat, a as int, b as int),
{
    let mut r: Vec<bool> = Vec::new();
    let mut i: usize = 0;
    while i < n
        invariant
            i <= n,
            r@ == two_marks(i as nat, a as int, b as int),
        decreases n - i,
    {
        r.push(i == a || i == b);
        proof {
            assert(r@ =~= two_marks((i + 1) as nat, a as int, b as int));
        }
        i = i + 1;
    }
    r
}

impl World {
    /// The index of the live player, if there is one.
    pub fn find_player(&self) -> (r: Option<usize>)
        requires
            self.wf(),
        ensures
            match r {
                Some(p) => p < self.entities@.len() && is_player(self.entities@[p as int]),
                None => forall|i: int| 0 <= i < self.entities@.len() ==> !is_player(self.entities@[i]),
            },
            r is None <==> !self.player_state.on,
    {
        proof {
            lemma_count_zero(self.entities@, players());
        }
        let mut i: usize = 0;
        while i < self.entities.len()
            invariant
                self.wf(),
                i <= self.entities@.len(),
                forall|j: int| 0 <= j < i ==> !is_player(self.entities@[j]),
            decreases self.entities@.len() - i,
        {
            if let Kind::Player = self.entities[i].kind {
                proof {
                    lemma_count_zero(self.entities@, players());
                    assert(players()(self.entities@[i as int]));
                    if count(self.entities@, players()) == 0 {
                        assert(!players()(self.entities@[i as int]));
                    }
                    assert(self.player_state.on);
                }
                return Some(i);
            }
            i = i + 1;
        }
        None
    }

    /// Resolves the enemies' lasers against the live player for one tick at
    /// time `now`. The first enemy laser in store order whose box overlaps the
    /// player's hits it: the player and that laser are removed, the player
    /// state records the death at `now`, and a pending explosion appears at
    /// the player's position. Returns the player's and the laser's indices, as
    /// they were before the call; without a player, or without a hit, nothing changes.
    pub fn enemy_lasers_hit_player(&mut self, now: u64) -> (r: Option<(usize, usize)>)
        requires
            old(self).wf(),
            old(self).next_id < ID_LIMIT,
        ensures
            final(self).wf(),
            final(self).enemy_count == old(self).enemy_count,
            final(self).formation_maker == old(self).formation_maker,
            final(self).win == old(self).win,
            match r {
                None => {
                    &&& *final(self) == *old(self)
                    &&& forall|p: int, l: int|
                        0 <= p < old(self).entities@.len() && 0 <= l < old(self).entities@.len()
                            && is_player(old(self).entities@[p]) && is_laser_from(
                            old(self).entities@[l],
                            Owner::FromEnemy,
                        ) ==> !collide(old(self).entities@[l], old(self).entities@[p])
                },
                Some((pu, l)) => {
                        let s = old(self).entities@;
                        let p = pu as int;
                        &&& 0 <= p < s.len()
                        &&& is_player(s[p])
                        &&& l < s.len()
                        &&& is_laser_from(s[l as int], Owner::FromEnemy)
                        &&& collide(s[l as int], s[p])
                        &&& forall|m: int|
                            0 <= m < l && is_laser_from(s[m], Owner::FromEnemy) ==> !collide(s[m], s[p])
                        &&& final(self).entities@ == kept(s, two_marks(s.len(), p, l as int)).push(
                            pending_at(old(self).next_id, s[p].pos),
                        )
                        &&& final(self).next_id == old(self).next_id + 1
                        &&& final(self).player_state == (PlayerState { on: false, last_shot: Some(now) })
                    },
            },
    {
        let p: usize = match self.find_player() {
            Some(p) => p,
            None => {
                proof {
                    assert(!self.player_state.on);
                }
                return None;
            },
        };
        proof {
            lemma_count_zero(self.entities@, players());
            lemma_one_player(self.entities@, p as int);
        }
        let ep = self.entities[p].extent();
        let n: usize = self.entities.len();
        let mut l: usize = 0;
        while l < n
            invariant
                l <= n,
                n == self.entities@.len(),
                p < n,
                self.wf(),
                *self == *old(self),
                self.next_id < ID_LIMIT,
                is_player(self.entities@[p as int]),
                ep == self.entities@[p as int].extent_spec(),
                ep.wf(),
                forall|q: int| 0 <= q < n && is_player(self.entities@[q]) ==> q == p,
                forall|m: int|
                    0 <= m < l && is_laser_from(self.entities@[m], Owner::FromEnemy) ==> !collide(
                        self.entities@[m],
                        self.entities@[p as int],
                    ),
            decreases n - l,
        {
            if self.entities[l].is_laser_of(Owner::FromEnemy) && overlaps(
                self.entities[l].pos,
                self.entities[l].extent(),
                self.entities[p].pos,
                ep,
            ) {
                let ghost s = self.entities@;
                let spot: Pos = self.entities[p].pos;
                let gone = marks_for_two(n, p, l);
                let kv = retain_unmarked(&self.entities, &gone);
                proof {
                    lemma_kept_preserves(s, gone@, self.next_id as int);
                    lemma_count_kept(s, gone@, enemies());
                    lemma_count_kept(s, gone@, players());
                    let g0 = Seq::new(n as nat, |i: int| false);
                    lemma_count_none_gone(s, g0, enemies());
                    lemma_count_none_gone(s, g0, players());
                    lemma_count_gone_mark(s, g0, p as int, enemies());
                    lemma_count_gone_mark(s, g0, p as int, players());
                    let g1 = g0.update(p as int, true);
                    lemma_count_gone_mark(s, g1, l as int, enemies());
                    lemma_count_gone_mark(s, g1, l as int, players());
                    assert(g1.update(l as int, true) =~= gone@);
                    lemma_count_push(kv@, pending_at(self.next_id, spot), enemies());
                    lemma_count_push(kv@, pending_at(self.next_id, spot), players());
                }
                self.entities = kv;
                self.create(Kind::PendingExplosion, spot, Extent { w: 0, h: 0 }, 1000, Motion::Still);
                self.player_state.shot(now);
                return Some((p, l));
            }
            l = l + 1;
        }
        None
    }
}

proof fn lemma_one_player(s: Seq<Entity>, p: int)
    requires
        0 <= p < s.len(),
        is_player(s[p]),
        count(s, players()) <= 1,
    ensures
        forall|q: int| 0 <= q < s.len() && is_player(s[q]) ==> q == p,
    decreases s.len(),
{
    let t = s.drop_last();
    if p < s.len() - 1 {
        assert(t[p] == s[p]);
        lemma_count_zero(t, players());
        if is_player(s.last()) {
            assert(count(t, players()) == 0);
            assert(false);
        }
        lemma_one_player(t, p);
        assert forall|q: int| 0 <= q < s.len() && is_player(s[q]) implies q == p by {
            if q < s.len() - 1 {
                assert(t[q] == s[q]);
            }
        }
    } else {
        assert(count(t, players()) == 0);
        lemma_count_zero(t, players());
        assert forall|q: int| 0 <= q < s.len() && is_player(s[q]) implies q == p by {
            if q < s.len() - 1 {
                assert(t[q] == s[q]);
            }
        }
    }
}

/// `c` held within the coordinate limits.
pub open spec fn clamp_coord(c: int) -> i64 {
    if c < -COORD_MAX {
        -COORD_MAX as i64
    } else if c > COORD_MAX {
        COORD_MAX as i64
    } else {
        c as i64
    }
}

/// An entity after one tick of straight-line travel: its position moves by
/// its velocity times `BASE_STEP` on each axis, held within the coordinate
/// limits. Entities without a velocity stay.
pub open spec fn moved(e: Entity) -> Entity {
    match e.motion {
        Motion::Still => e,
        Motion::Moving { velocity, .. } => Entity {
            pos: Pos {
                x: clamp_coord(e.pos.x + velocity.x * BASE_STEP),
                y: clamp_coord(e.pos.y + velocity.y * BASE_STEP),
            },
            ..e
        },
    }
}

/// A self-despawning entity beyond the playfield's margin.
pub open spec fn despawns(e: Entity, win: WinSize) -> bool {
    match e.motion {
        Motion::Still => false,
        Motion::Moving { auto_despawn, .. } => auto_despawn && beyond_margin_spec(e.pos, win),
    }
}

pub open spec fn moved_all(s: Seq<Entity>) -> Seq<Entity> {
    Seq::new(s.len(), |i: int| moved(s[i]))
}

pub open spec fn despawn_marks(s: Seq<Entity>, win: WinSize) -> Seq<bool> {
    Seq::new(s.len(), |i: int| despawns(s[i], win))
}

fn clamp_step(c: i64, v: i64) -> (r: i64)
    requires
        coord_ok(c as int),
        -VELOCITY_MAX <= v <= VELOCITY_MAX,
    ensures
        r == clamp_coord(c + v * BASE_STEP),
{
    let t: i64 = c + v * BASE_STEP;
    if t < -COORD_MAX {
        -COORD_MAX
    } else if t > COORD_MAX {
        COORD_MAX
    } else {
        t
    }
}

impl World {
    /// Moves every entity that has a velocity by one tick (see `moved`), then
    /// removes the self-despawning ones that are now beyond the playfield's
    /// margin, before any hit is resolved.
    pub fn movement(&mut self)
        requires
            old(self).wf(),
        ensures
            final(self).wf(),
            final(self).entities@ == kept(
                moved_all(old(self).entities@),
                despawn_marks(moved_all(old(self).entities@), old(self).win),
            ),
            final(self).next_id == old(self).next_id,
            final(self).enemy_count == old(self).enemy_count,
            final(self).player_state == old(self).player_state,
            final(self).formation_maker == old(self).formation_maker,
            final(self).win == old(self).win,
    {
        let ghost s0 = self.entities@;
        let n: usize = self.entities.len();
        let mut i: usize = 0;
        while i < n
            invariant
                i <= n,
                n == self.entities@.len(),
                n == s0.len(),
                all_wf(s0),
                ids_ordered(s0, self.next_id as int),
                forall|j: int| 0 <= j < i ==> self.entities@[j] == moved(s0[j]),
                forall|j: int| i <= j < n ==> self.entities@[j] == s0[j],
                all_wf(self.entities@),
                ids_ordered(self.entities@, self.next_id as int),
                count(self.entities@, enemies()) == count(s0, enemies()),
                count(self.entities@, players()) == count(s0, players()),
                self.next_id == old(self).next_id,
                self.enemy_count == old(self).enemy_count,
                self.player_state == old(self).player_state,
                self.formation_maker == old(self).formation_maker,
                self.win == old(self).win,
            decreases n - i,
        {
            let e: Entity = self.entities[i];
            if let Motion::Moving { velocity, auto_despawn } = e.motion {
                let x: i64 = clamp_step(e.pos.x, velocity.x);
                let y: i64 = clamp_step(e.pos.y, velocity.y);
                let m = Entity { pos: Pos { x, y }, ..e };
                proof {
                    lemma_count_update(self.entities@, i as int, m, enemies());
                    lemma_count_update(self.entities@, i as int, m, players());
                }
                self.entities.set(i, m);
            }
            i = i + 1;
        }
        proof {
            assert(self.entities@ =~= moved_all(s0));
        }
        let mut gone: Vec<bool> = Vec::new();
        let mut k: usize = 0;
        while k < n
            invariant
                k <= n,
                n == self.entities@.len(),
                self.entities@ == moved_all(s0),
                all_wf(self.entities@),
                self.win.wf(),
                gone@ == despawn_marks(self.entities@, self.win).subrange(0, k as int),
            decreases n - k,
        {
            let e: Entity = self.entities[k];
            let d: bool = match e.motion {
                Motion::Still => false,
                Motion::Moving { auto_despawn, .. } => auto_despawn && beyond_margin(e.pos, self.win),
            };
            gone.push(d);
            proof {
                assert(gone@ =~= despawn_marks(self.entities@, self.win).subrange(0, k + 1));
            }
            k = k + 1;
        }
        proof {
            assert(gone@ =~= despawn_marks(self.entities@, self.win));
        }
        let kv = retain_unmarked(&self.entities, &gone);
        proof {
            let s1 = self.entities@;
            lemma_kept_preserves(s1, gone@, self.next_id as int);
            lemma_count_kept(s1, gone@, enemies());
            lemma_count_kept(s1, gone@, players());
            lemma_count_none_gone(s1, gone@, enemies());
            lemma_count_none_gone(s1, gone@, players());
        }
        self.entities = kv;
    }
}

/// The player as it appears: still, at the bottom centre of the playfield.
pub open spec fn new_player(id: u64, win: WinSize) -> Entity {
    Entity {
        id,
        kind: Kind::Player,
        pos: Pos { x: 0, y: (-(win.h / 2) + PLAYER_H * SPRITE_SCALE / 2000 + PLAYER_BOTTOM_GAP) as i64 },
        size: Extent { w: PLAYER_W, h: PLAYER_H },
        scale: SPRITE_SCALE,
        motion: Motion::Moving { velocity: Velocity { x: 0, y: 0 }, auto_despawn: false },
    }
}

/// An enemy that follows `f`, at its spawn point.
pub open spec fn new_enemy(id: u64, f: Formation) -> Entity {
    Entity {
        id,
        kind: Kind::Enemy(f),
        pos: f.start,
        size: Extent { w: ENEMY_W, h: ENEMY_H },
        scale: SPRITE_SCALE,
        motion: Motion::Still,
    }
}

/// A laser fired by the player, going up from `pos`.
pub open spec fn new_player_laser(id: u64, pos: Pos) -> Entity {
    Entity {
        id,
        kind: Kind::Laser(Owner::FromPlayer),
        pos,
        size: Extent { w: PLAYER_LASER_W, h: PLAYER_LASER_H },
        scale: SPRITE_SCALE,
        motion: Motion::Moving { velocity: Velocity { x: 0, y: 1 }, auto_despawn: true },
    }
}

/// A laser fired by an enemy, going down from `pos`.
pub open spec fn new_enemy_laser(id: u64, pos: Pos) -> Entity {
    Entity {
        id,
        kind: Kind::Laser(Owner::FromEnemy),
        pos,
        size: Extent { w: ENEMY_LASER_W, h: ENEMY_LASER_H },
        scale: SPRITE_SCALE,
        motion: Motion::Moving { velocity: Velocity { x: 0, y: -1i64 }, auto_despawn: true },
    }
}

/// Horizontal offset of the player's two lasers from its centre: half its
/// scaled width.
pub const PLAYER_GUN_OFFSET: i64 = 36_000;

/// The indices below `n` of the enemies of `s` whose mark in `fires` is
/// set, in increasing order.
pub open spec fn fire_indices(s: Seq<Entity>, fires: Seq<bool>, n: nat) -> Seq<usize>
    decreases n,
{
    if n == 0 {
        Seq::empty()
    } else {
        let r = fire_indices(s, fires, (n - 1) as nat);
        if is_enemy(s[n - 1]) && fires[n - 1] {
            r.push((n - 1) as usize)
        } else {
            r
        }
    }
}

/// `p` moved by `(dx, dy)`, held within the coordinate limits.
pub open spec fn shifted(p: Pos, dx: int, dy: int) -> Pos {
    Pos { x: clamp_coord(p.x + dx), y: clamp_coord(p.y + dy) }
}

fn shift(p: Pos, dx: i64, dy: i64) -> (r: Pos)
    requires
        p.wf(),
        -COORD_MAX <= dx <= COORD_MAX,
        -COORD_MAX <= dy <= COORD_MAX,
    ensures
        r == shifted(p, dx as int, dy as int),
        r.wf(),
{
    let x: i64 = p.x + dx;
    let y: i64 = p.y + dy;
    Pos {
        x: if x < -COORD_MAX { -COORD_MAX } else if x > COORD_MAX { COORD_MAX } else { x },
        y: if y < -COORD_MAX { -COORD_MAX } else if y > COORD_MAX { COORD_MAX } else { y },
    }
}

impl World {
    /// At time `now`, makes a player appear when the player state allows it
    /// (see `PlayerState::may_respawn`); returns whether it did.
    pub fn spawn_player(&mut self, now: u64) -> (r: bool)
        requires
            old(self).wf(),
            old(self).next_id < ID_LIMIT,
        ensures
            final(self).wf(),
            r == may_respawn_spec(old(self).player_state, now as int),
            r ==> final(self).entities@ == old(self).entities@.push(
                new_player(old(self).next_id, old(self).win),
            ) && final(self).next_id == old(self).next_id + 1 && final(self).player_state == (
            PlayerState { on: true, last_shot: None }),
            !r ==> *final(self) == *old(self),
            final(self).enemy_count == old(self).enemy_count,
            final(self).formation_maker == old(self).formation_maker,
            final(self).win == old(self).win,
    {
        if !self.player_state.may_respawn(now) {
            return false;
        }
        let y: i64 = -(self.win.h / 2) + PLAYER_H * SPRITE_SCALE / 2000 + PLAYER_BOTTOM_GAP;
        let ghost s = self.entities@;
        proof {
            lemma_count_push(s, new_player(self.next_id, self.win), enemies());
            lemma_count_push(s, new_player(self.next_id, self.win), players());
        }
        self.create(
            Kind::Player,
            Pos { x: 0, y },
            Extent { w: PLAYER_W, h: PLAYER_H },
            SPRITE_SCALE,
            Motion::Moving { velocity: Velocity { x: 0, y: 0 }, auto_despawn: false },
        );
        self.player_state.spawned();
        true
    }

    /// Makes an enemy appear on a new path (see `FormationMaker::make`),
    /// unless the enemy count is at its maximum; returns whether it did.
    pub fn spawn_enemy(&mut self) -> (r: bool)
        requires
            old(self).wf(),
            old(self).next_id < ID_LIMIT,
            spawn_room(old(self).win),
        ensures
            final(self).wf(),
            r == (old(self).enemy_count.count < ENEMY_MAX),
            r ==> final(self).enemy_count.count == old(self).enemy_count.count + 1
                && final(self).next_id == old(self).next_id + 1
                && final(self).entities@.len() == old(self).entities@.len() + 1
                && final(self).entities@.drop_last() == old(self).entities@
                && match final(self).entities@.last().kind {
                Kind::Enemy(f) => {
                    &&& final(self).entities@.last() == new_enemy(old(self).next_id, f)
                    &&& spawn_span_ok(f.start.x as int, old(self).win.w as int)
                    &&& spawn_span_ok(f.start.y as int, old(self).win.h as int)
                    &&& f == formation_spec(f.start, f.radius_x, f.radius_y)
                    &&& RADIUS_X_MIN <= f.radius_x <= RADIUS_X_MAX
                    &&& RADIUS_Y_MIN <= f.radius_y <= RADIUS_Y_MAX
                },
                _ => false,
            },
            r ==> final(self).formation_maker.made == if old(self).formation_maker.made < u64::MAX {
                old(self).formation_maker.made + 1
            } else {
                old(self).formation_maker.made as int
            },
            !r ==> *final(self) == *old(self),
            final(self).player_state == old(self).player_state,
            final(self).win == old(self).win,
    {
        if !self.enemy_count.has_room() {
            return false;
        }
        let f = self.formation_maker.make(self.win);
        let ghost s = self.entities@;
        proof {
            lemma_count_push(s, new_enemy(self.next_id, f), enemies());
            lemma_count_push(s, new_enemy(self.next_id, f), players());
        }
        self.create(Kind::Enemy(f), f.start, Extent { w: ENEMY_W, h: ENEMY_H }, SPRITE_SCALE, Motion::Still);
        proof {
            assert(self.entities@.drop_last() == s);
        }
        self.enemy_count.try_add();
        true
    }
}

proof fn lemma_count_same(s: Seq<Entity>, t: Seq<Entity>, p: spec_fn(Entity) -> bool)
    requires
        s.len() == t.len(),
        forall|i: int| 0 <= i < s.len() ==> p(s[i]) == p(t[i]),
    ensures
        count(s, p) == count(t, p),
    decreases s.len(),
{
    if s.len() > 0 {
        lemma_count_same(s.drop_last(), t.drop_last(), p);
    }
}

proof fn lemma_count_prefix(s: Seq<Entity>, i: int, p: spec_fn(Entity) -> bool)
    requires
        0 <= i < s.len(),
    ensures
        count(s.subrange(0, i + 1), p) == count(s.subrange(0, i), p) + if p(s[i]) { 1nat } else { 0nat },
        count(s.subrange(0, i), p) <= count(s, p),
    decreases s.len() - i,
{
    assert(s.subrange(0, i + 1).drop_last() == s.subrange(0, i));
    if i + 1 < s.len() {
        lemma_count_prefix(s, i + 1, p);
    } else {
        assert(s.subrange(0, i + 1) == s);
    }
}

/// A pending explosion turned into a running one; other entities stay.
pub open spec fn realized(e: Entity) -> Entity {
    match e.kind {
        Kind::PendingExplosion => Entity { kind: Kind::Explosion(ExplosionTimer { elapsed: 0, frame: 0 }), ..e },
        _ => e,
    }
}

/// An explosion after `delta` microseconds; other entities stay.
pub open spec fn ticked(e: Entity, delta: int) -> Entity {
    match e.kind {
        Kind::Explosion(t) => Entity { kind: Kind::Explosion(tick_spec(t, delta)), ..e },
        _ => e,
    }
}

/// An explosion whose animation has run past its last frame.
pub open spec fn finished(e: Entity) -> bool {
    match e.kind {
        Kind::Explosion(t) => t.frame >= EXPLOSION_LEN,
        _ => false,
    }
}

pub open spec fn ticked_all(s: Seq<Entity>, delta: int) -> Seq<Entity> {
    Seq::new(s.len(), |i: int| ticked(s[i], delta))
}

pub open spec fn finished_marks(s: Seq<Entity>) -> Seq<bool> {
    Seq::new(s.len(), |i: int| finished(s[i]))
}

/// In every well-formed world the enemy count is the number of live
/// enemies and lies within `0..=ENEMY_MAX`; so it rises by one with each
/// enemy spawned and falls by one with each enemy destroyed.
pub proof fn lemma_enemy_count_tracks_enemies(w: World)
    requires
        w.wf(),
    ensures
        w.enemy_count.count == count(w.entities@, enemies()),
        0 <= w.enemy_count.count <= ENEMY_MAX,
{
}

impl World {
    /// The index of the live entity with id `id`, if there is one.
    pub fn index_of(&self, id: u64) -> (r: Option<usize>)
        ensures
            match r {
                Some(i) => i < self.entities@.len() && self.entities@[i as int].id == id,
                None => forall|i: int| 0 <= i < self.entities@.len() ==> self.entities@[i].id != id,
            },
    {
        let mut i: usize = 0;
        while i < self.entities.len()
            invariant
                i <= self.entities@.len(),
                forall|j: int| 0 <= j < i ==> self.entities@[j].id != id,
            decreases self.entities@.len() - i,
        {
            if self.entities[i].id == id {
                return Some(i);
            }
            i = i + 1;
        }
        None
    }

    /// Sets the live player's horizontal velocity from the controls: -1 with
    /// `left`, else 1 with `right`, else 0. Returns the player's index.
    pub fn steer_player(&mut self, left: bool, right: bool) -> (r: Option<usize>)
        requires
            old(self).wf(),
        ensures
            final(self).wf(),
            r is None <==> !old(self).player_state.on,
            r is None ==> *final(self) == *old(self),
            match r {
                Some(p) => {
                    let e = old(self).entities@[p as int];
                    &&& p < old(self).entities@.len()
                    &&& is_player(e)
                    &&& final(self).entities@ == old(self).entities@.update(
                        p as int,
                        Entity {
                            motion: Motion::Moving {
                                velocity: Velocity {
                                    x: if left { -1i64 } else if right { 1i64 } else { 0i64 },
                                    y: match e.motion {
                                        Motion::Moving { velocity, .. } => velocity.y,
                                        Motion::Still => 0,
                                    },
                                },
                                auto_despawn: false,
                            },
                            ..e
                        },
                    )
                },
                None => true,
            },
            final(self).next_id == old(self).next_id,
            final(self).enemy_count == old(self).enemy_count,
            final(self).player_state == old(self).player_state,
            final(self).formation_maker == old(self).formation_maker,
            final(self).win == old(self).win,
    {
        let p: usize = match self.find_player() {
            Some(p) => p,
            None => return None,
        };
        let e: Entity = self.entities[p];
        let vx: i64 = if left { -1 } else if right { 1 } else { 0 };
        let vy: i64 = match e.motion {
            Motion::Moving { velocity, .. } => velocity.y,
            Motion::Still => 0,
        };
        let m = Entity {
            motion: Motion::Moving { velocity: Velocity { x: vx, y: vy }, auto_despawn: false },
            ..e
        };
        proof {
            lemma_count_update(self.entities@, p as int, m, enemies());
            lemma_count_update(self.entities@, p as int, m, players());
        }
        self.entities.set(p, m);
        Some(p)
    }

    /// With `fire` and a live player, two of the player's lasers appear
    /// `LASER_OFFSET` above it, `PLAYER_GUN_OFFSET` to its right and then to
    /// its left. Returns whether they did.
    pub fn player_fire(&mut self, fire: bool) -> (r: bool)
        requires
            old(self).wf(),
            old(self).next_id < ID_LIMIT,
        ensures
            final(self).wf(),
            r == (fire && old(self).player_state.on),
            !r ==> *final(self) == *old(self),
            r ==> exists|p: int|
                0 <= p < old(self).entities@.len() && #[trigger] is_player(old(self).entities@[p])
                    && final(self).entities@ == old(self).entities@.push(
                    new_player_laser(
                        old(self).next_id,
                        shifted(old(self).entities@[p].pos, PLAYER_GUN_OFFSET as int, LASER_OFFSET as int),
                    ),
                ).push(
                    new_player_laser(
                        (old(self).next_id + 1) as u64,
                        shifted(old(self).entities@[p].pos, -PLAYER_GUN_OFFSET, LASER_OFFSET as int),
                    ),
                ),
            r ==> final(self).next_id == old(self).next_id + 2,
            final(self).enemy_count == old(self).enemy_count,
            final(self).player_state == old(self).player_state,
            final(self).formation_maker == old(self).formation_maker,
            final(self).win == old(self).win,
    {
        if !fire {
            return false;
        }
        let p: usize = match self.find_player() {
            Some(p) => p,
            None => return false,
        };
        let pos: Pos = self.entities[p].pos;
        let right: Pos = shift(pos, PLAYER_GUN_OFFSET, LASER_OFFSET);
        let left: Pos = shift(pos, -PLAYER_GUN_OFFSET, LASER_OFFSET);
        let ghost s = self.entities@;
        let ghost id = self.next_id;
        let motion = Motion::Moving { velocity: Velocity { x: 0, y: 1 }, auto_despawn: true };
        let size = Extent { w: PLAYER_LASER_W, h: PLAYER_LASER_H };
        proof {
            lemma_count_push(s, new_player_laser(id, right), enemies());
            lemma_count_push(s, new_player_laser(id, right), players());
            let s1 = s.push(new_player_laser(id, right));
            lemma_count_push(s1, new_player_laser((id + 1) as u64, left), enemies());
            lemma_count_push(s1, new_player_laser((id + 1) as u64, left), players());
        }
        self.create(Kind::Laser(Owner::FromPlayer), right, size, SPRITE_SCALE, motion);
        self.create(Kind::Laser(Owner::FromPlayer), left, size, SPRITE_SCALE, motion);
        proof {
            assert(is_player(s[p as int]));
        }
        true
    }

    /// Each enemy at an index `i` with `fires[i]` set fires: a laser of its
    /// own appears `LASER_OFFSET` below it. Returns the indices of the enemies
    /// that fired, in store order.
    pub fn fire_with(&mut self, fires: &Vec<bool>) -> (shooters: Vec<usize>)
        requires
            old(self).wf(),
            old(self).next_id < ID_LIMIT,
            fires@.len() == old(self).entities@.len(),
        ensures
            final(self).wf(),
            shooters@ == fire_indices(old(self).entities@, fires@, old(self).entities@.len()),
            ({
                let s = old(self).entities@;
                let k = shooters@.len();
                &&& k <= ENEMY_MAX
                &&& forall|j: int| 0 <= j < k ==> #[trigger] shooters@[j] < s.len() && is_enemy(s[shooters@[j] as int])
                &&& forall|a: int, b: int| 0 <= a < b < k ==> shooters@[a] < shooters@[b]
                &&& final(self).entities@ == s + Seq::new(
                    k,
                    |j: int| new_enemy_laser((old(self).next_id + j) as u64, shifted(s[shooters@[j] as int].pos, 0, -LASER_OFFSET)),
                )
                &&& final(self).next_id == old(self).next_id + k
            }),
            final(self).enemy_count == old(self).enemy_count,
            final(self).player_state == old(self).player_state,
            final(self).formation_maker == old(self).formation_maker,
            final(self).win == old(self).win,
    {
        let ghost s0 = self.entities@;
        let ghost id0 = self.next_id;
        let n: usize = self.entities.len();
        let mut shooters: Vec<usize> = Vec::new();
        let mut i: usize = 0;
        while i < n
            invariant
                i <= n,
                n == s0.len(),
                fires@.len() == n,
                shooters@ == fire_indices(s0, fires@, i as nat),
                id0 < ID_LIMIT,
                all_wf(s0),
                self.enemy_count.count == count(s0, enemies()),
                self.enemy_count.count <= ENEMY_MAX,
                shooters@.len() <= count(s0.subrange(0, i as int), enemies()),
                forall|j: int| 0 <= j < shooters@.len() ==> #[trigger] shooters@[j] < i && is_enemy(s0[shooters@[j] as int]),
                forall|a: int, b: int| 0 <= a < b < shooters@.len() ==> shooters@[a] < shooters@[b],
                self.entities@ == s0 + Seq::new(
                    shooters@.len(),
                    |j: int| new_enemy_laser((id0 + j) as u64, shifted(s0[shooters@[j] as int].pos, 0, -LASER_OFFSET)),
                ),
                self.next_id == id0 + shooters@.len(),
                ids_ordered(self.entities@, self.next_id as int),
                all_wf(self.entities@),
                count(self.entities@, enemies()) == count(s0, enemies()),
                count(self.entities@, players()) == count(s0, players()),
                self.enemy_count == old(self).enemy_count,
                self.player_state == old(self).player_state,
                self.formation_maker == old(self).formation_maker,
                self.win == old(self).win,
            decreases n - i,
        {
            proof {
                lemma_count_prefix(s0, i as int, enemies());
                assert(self.entities@[i as int] == s0[i as int]);
            }
            let is_e: bool = match self.entities[i].kind {
                Kind::Enemy(_) => true,
                _ => false,
            };
            if is_e && fires[i] {
                let spot: Pos = shift(self.entities[i].pos, 0, -LASER_OFFSET);
                let ghost before = self.entities@;
                let ghost k = shooters@.len();
                let ghost l = new_enemy_laser(self.next_id, spot);
                proof {
                    lemma_count_push(before, l, enemies());
                    lemma_count_push(before, l, players());
                }
                self.create(
                    Kind::Laser(Owner::FromEnemy),
                    spot,
                    Extent { w: ENEMY_LASER_W, h: ENEMY_LASER_H },
                    SPRITE_SCALE,
                    Motion::Moving { velocity: Velocity { x: 0, y: -1 }, auto_despawn: true },
                );
                shooters.push(i);
                proof {
                    assert(self.entities@ =~= s0 + Seq::new(
                        shooters@.len(),
                        |j: int| new_enemy_laser((id0 + j) as u64, shifted(s0[shooters@[j] as int].pos, 0, -LASER_OFFSET)),
                    ));
                }
            }
            i = i + 1;
        }
        proof {
            if n > 0 {
                lemma_count_prefix(s0, (n - 1) as int, enemies());
                assert(s0.subrange(0, n as int) == s0);
            } else {
                assert(s0.subrange(0, 0) == s0);
            }
        }
        shooters
    }

    /// Each enemy fires with probability 1/60, independently: one draw of
    /// `random_ratio(1, 60)` per enemy decides, and `fire_with` does the rest.
    /// Returns the indices of the enemies that fired, in store order.
    pub fn enemy_fire(&mut self) -> (shooters: Vec<usize>)
        requires
            old(self).wf(),
            old(self).next_id < ID_LIMIT,
        ensures
            final(self).wf(),
            ({
                let s = old(self).entities@;
                let k = shooters@.len();
                &&& k <= ENEMY_MAX
                &&& forall|j: int| 0 <= j < k ==> #[trigger] shooters@[j] < s.len() && is_enemy(s[shooters@[j] as int])
                &&& forall|a: int, b: int| 0 <= a < b < k ==> shooters@[a] < shooters@[b]
                &&& final(self).entities@ == s + Seq::new(
                    k,
                    |j: int| new_enemy_laser((old(self).next_id + j) as u64, shifted(s[shooters@[j] as int].pos, 0, -LASER_OFFSET)),
                )
                &&& final(self).next_id == old(self).next_id + k
            }),
            final(self).enemy_count == old(self).enemy_count,
            final(self).player_state == old(self).player_state,
            final(self).formation_maker == old(self).formation_maker,
            final(self).win == old(self).win,
    {
        let n: usize = self.entities.len();
        let mut fires: Vec<bool> = Vec::new();
        let mut i: usize = 0;
        while i < n
            invariant
                i <= n,
                n == self.entities@.len(),
                fires@.len() == i,
            decreases n - i,
        {
            let d: bool = match self.entities[i].kind {
                Kind::Enemy(_) => crate::random::random_ratio(1, 60),
                _ => false,
            };
            fires.push(d);
            i = i + 1;
        }
        self.fire_with(&fires)
    }
}

impl World {
    /// One tick of the enemy at index `i` along its path, toward `target`,
    /// the point of its ellipse at the path's next phase (see
    /// `Formation::follow`).
    pub fn enemy_follow(&mut self, i: usize, target: Pos)
        requires
            old(self).wf(),
            i < old(self).entities@.len(),
            is_enemy(old(self).entities@[i as int]),
            target.wf(),
        ensures
            final(self).wf(),
            match old(self).entities@[i as int].kind {
                Kind::Enemy(f) => {
                    let e = old(self).entities@[i as int];
                    final(self).entities@ == old(self).entities@.update(
                        i as int,
                        Entity {
                            kind: Kind::Enemy(f.followed_spec(e.pos, target)),
                            pos: move_toward_spec(e.pos, target, FORMATION_STEP as int, dist_spec(e.pos, target)),
                            ..e
                        },
                    )
                },
                _ => false,
            },
            final(self).next_id == old(self).next_id,
            final(self).enemy_count == old(self).enemy_count,
            final(self).player_state == old(self).player_state,
            final(self).formation_maker == old(self).formation_maker,
            final(self).win == old(self).win,
    {
        let e: Entity = self.entities[i];
        if let Kind::Enemy(f) = e.kind {
            let mut f2: Formation = f;
            let pos: Pos = f2.follow(e.pos, target);
            let m = Entity { kind: Kind::Enemy(f2), pos, ..e };
            proof {
                lemma_count_update(self.entities@, i as int, m, enemies());
                lemma_count_update(self.entities@, i as int, m, players());
            }
            self.entities.set(i, m);
        }
    }

    /// Every pending explosion becomes a running explosion at its first
    /// frame, keeping its id and position.
    pub fn realize_explosions(&mut self)
        requires
            old(self).wf(),
        ensures
            final(self).wf(),
            final(self).entities@ == Seq::new(
                old(self).entities@.len(),
                |i: int| realized(old(self).entities@[i]),
            ),
            final(self).next_id == old(self).next_id,
            final(self).enemy_count == old(self).enemy_count,
            final(self).player_state == old(self).player_state,
            final(self).formation_maker == old(self).formation_maker,
            final(self).win == old(self).win,
    {
        let ghost s0 = self.entities@;
        let n: usize = self.entities.len();
        let mut i: usize = 0;
        while i < n
            invariant
                i <= n,
                n == self.entities@.len(),
                n == s0.len(),
                forall|j: int| 0 <= j < i ==> self.entities@[j] == realized(s0[j]),
                forall|j: int| i <= j < n ==> self.entities@[j] == s0[j],
                all_wf(self.entities@),
                ids_ordered(self.entities@, self.next_id as int),
                count(self.entities@, enemies()) == count(s0, enemies()),
                count(self.entities@, players()) == count(s0, players()),
                self.next_id == old(self).next_id,
                self.enemy_count == old(self).enemy_count,
                self.player_state == old(self).player_state,
                self.formation_maker == old(self).formation_maker,
                self.win == old(self).win,
            decreases n - i,
        {
            let e: Entity = self.entities[i];
            if let Kind::PendingExplosion = e.kind {
                let m = Entity { kind: Kind::Explosion(ExplosionTimer::new()), ..e };
                proof {
                    lemma_count_update(self.entities@, i as int, m, enemies());
                    lemma_count_update(self.entities@, i as int, m, players());
                }
                self.entities.set(i, m);
            }
            i = i + 1;
        }
        proof {
            assert(self.entities@ =~= Seq::new(s0.len(), |i: int| realized(s0[i])));
        }
    }

    /// Lets `delta` microseconds pass for every explosion (see
    /// `ExplosionTimer::tick`); those that ran past their last frame are
    /// removed.
    pub fn animate_explosions(&mut self, delta: u64)
        requires
            old(self).wf(),
        ensures
            final(self).wf(),
            final(self).entities@ == kept(
                ticked_all(old(self).entities@, delta as int),
                finished_marks(ticked_all(old(self).entities@, delta as int)),
            ),
            final(self).next_id == old(self).next_id,
            final(self).enemy_count == old(self).enemy_count,
            final(self).player_state == old(self).player_state,
            final(self).formation_maker == old(self).formation_maker,
            final(self).win == old(self).win,
    {
        let ghost s0 = self.entities@;
        let ghost t0 = ticked_all(s0, delta as int);
        let ghost g0 = finished_marks(t0);
        let n: usize = self.entities.len();
        let mut out: Vec<Entity> = Vec::new();
        let mut i: usize = 0;
        while i < n
            invariant
                i <= n,
                n == self.entities@.len(),
                self.entities@ == s0,
                all_wf(s0),
                t0 == ticked_all(s0, delta as int),
                g0 == finished_marks(t0),
                out@ == kept(t0.subrange(0, i as int), g0),
            decreases n - i,
        {
            let mut e: Entity = self.entities[i];
            let mut done: bool = false;
            if let Kind::Explosion(t) = e.kind {
                let mut t2: ExplosionTimer = t;
                done = t2.tick(delta);
                e = Entity { kind: Kind::Explosion(t2), ..e };
            }
            assert(t0.subrange(0, i + 1).drop_last() == t0.subrange(0, i as int));
            if !done {
                out.push(e);
            }
            i = i + 1;
        }
        proof {
            assert(t0.subrange(0, n as int) == t0);
            assert forall|i: int| 0 <= i < t0.len() && !g0[i] implies t0[i].wf() by {
                assert(s0[i].wf());
            }
            lemma_kept_preserves(t0, g0, self.next_id as int);
            lemma_count_kept(t0, g0, enemies());
            lemma_count_kept(t0, g0, players());
            lemma_count_none_gone(t0, g0, enemies());
            lemma_count_none_gone(t0, g0, players());
            lemma_count_same(s0, t0, enemies());
            lemma_count_same(s0, t0, players());
        }
        self.entities = out;
    }
}

} // verus!
