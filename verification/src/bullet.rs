use vstd::prelude::*;
use crate::chain::{
    chain_ok, lemma_chain_join, lemma_chain_remove, live, splice_source, target_of,
};
use crate::entity::{Entity, COORD_SCALE};
use crate::frac::{div_trunc, div_trunc_i64, lemma_mul_bound, lemma_mul_bound2, Frac, XTime, xt_lt};
use crate::ray::{
    int_sqrt, isqrt, lemma_int_sqrt_unique, spec_ray_intersection, Intersection,
    IntersectionVariant, Ray, RAY_LIMIT,
};
use crate::room::{wf_rooms, Room};
use crate::user::{rooms_indexed, spec_new_user, users_wf_bounded, User, SCAN_LIMIT};

verus! {

/// Length of the rendered trace of a bullet that struck nothing.
pub const BULLET_RANGE: i64 = 200 * COORD_SCALE;

/// A hit-scan shot: fired on a click, resolved exactly once in the tick
/// that drains it, then discarded. The recorded target is a copy of the
/// owner's target at fire time; elimination itself gates on the owner's
/// current target at resolution, so a stale copy cannot break the chain.
#[derive(Clone, Copy, Debug, PartialEq, Eq, Structural)]
pub struct Bullet {
    pub user_idx: usize,
    pub target_user_idx: usize,
    pub room_idx: usize,
    pub ray: Ray,
}

/// The rendered trace of a resolved bullet.
#[derive(Clone, Copy, Debug, PartialEq, Eq, Structural)]
pub struct BulletPath {
    pub origin_x: i64,
    pub origin_y: i64,
    pub end_x: i64,
    pub end_y: i64,
}

/// Distance of the best strike so far, or plus infinity.
pub open spec fn cur_dist(cur: Option<Intersection>) -> XTime {
    match cur {
        None => XTime::PInf,
        Some(x) => x.distance@,
    }
}

/// Executable form of a finite extended time.
pub open spec fn frac_of_xt(t: XTime) -> Frac {
    match t {
        XTime::Fin { n, d } => Frac { num: n as i64, den: d as i64 },
        _ => Frac { num: 0, den: 1 },
    }
}

/// One slot against the ray: the owner and vacant or other-room slots never
/// count; a strictly nearer strike replaces the best one.
pub open spec fn bullet_user_step(
    b: Bullet,
    users: Seq<Option<User>>,
    i: int,
    cur: Option<Intersection>,
) -> Option<Intersection> {
    if i == b.user_idx as int {
        cur
    } else {
        match users[i] {
            None => cur,
            Some(u) => {
                if u.room_idx != b.room_idx {
                    cur
                } else {
                    match spec_ray_intersection(b.ray, u.dynamic_entity.entity) {
                        None => cur,
                        Some(t) => {
                            if xt_lt(t, cur_dist(cur)) {
                                Some(
                                    Intersection {
                                        variant: IntersectionVariant::User(i as usize),
                                        distance: frac_of_xt(t),
                                    },
                                )
                            } else {
                                cur
                            }
                        },
                    }
                }
            },
        }
    }
}

pub open spec fn bullet_scan_users_rec(
    b: Bullet,
    users: Seq<Option<User>>,
    i: int,
    cur: Option<Intersection>,
) -> Option<Intersection>
    decreases users.len() - i,
{
    if i < 0 || i >= users.len() {
        cur
    } else {
        bullet_scan_users_rec(b, users, i + 1, bullet_user_step(b, users, i, cur))
    }
}

/// One platform against the ray.
pub open spec fn bullet_platform_step(
    b: Bullet,
    p: Entity,
    cur: Option<Intersection>,
) -> Option<Intersection> {
    match spec_ray_intersection(b.ray, p) {
        None => cur,
        Some(t) => {
            if xt_lt(t, cur_dist(cur)) {
                Some(
                    Intersection { variant: IntersectionVariant::Platform, distance: frac_of_xt(t) },
                )
            } else {
                cur
            }
        },
    }
}

pub open spec fn bullet_scan_platforms_rec(
    b: Bullet,
    platforms: Seq<Entity>,
    i: int,
    cur: Option<Intersection>,
) -> Option<Intersection>
    decreases platforms.len() - i,
{
    if i < 0 || i >= platforms.len() {
        cur
    } else {
        bullet_scan_platforms_rec(b, platforms, i + 1, bullet_platform_step(b, platforms[i], cur))
    }
}

/// The strike the bullet resolves to: the smallest crossing distance over
/// every other live same-room player and every platform of its room.
pub open spec fn bullet_nearest(b: Bullet, users: Seq<Option<User>>, rooms: Seq<Room>) -> Option<
    Intersection,
> {
    bullet_scan_platforms_rec(
        b,
        rooms[b.room_idx as int].platforms@,
        0,
        bullet_scan_users_rec(b, users, 0, None),
    )
}

/// Shape of a strike the scans can produce.
pub open spec fn bullet_cand_ok(x: Intersection, b: Bullet, users: Seq<Option<User>>) -> bool {
    &&& x.distance.wf()
    &&& match x.variant {
        IntersectionVariant::User(i) => i < users.len() && users[i as int] is Some && i
            != b.user_idx,
        IntersectionVariant::Platform => true,
    }
}

/// What resolving one bullet does to the player slots: nothing, unless the
/// nearest strike is a player that is its owner's current target, which is
/// then eliminated and respawned by a splice at some live slot.
pub open spec fn bullet_applied(
    pre: Seq<Option<User>>,
    post: Seq<Option<User>>,
    b: Bullet,
    rooms: Seq<Room>,
) -> bool {
    match bullet_nearest(b, pre, rooms) {
        None => post == pre,
        Some(x) => match x.variant {
            IntersectionVariant::Platform => post == pre,
            IntersectionVariant::User(i) => {
                if pre[b.user_idx as int] is Some && (pre[b.user_idx as int]->0).target_user_idx
                    == i {
                    exists|k: int, t: usize| eliminated(pre, post, b.user_idx as int, i as int, k, t)
                } else {
                    post == pre
                }
            },
        },
    }
}

/// `p` is the rendered trace of `b` resolved against `users`: from the
/// ray's origin to the nearest struck distance, or the default length when
/// nothing was struck.
pub open spec fn is_bullet_path(
    p: BulletPath,
    b: Bullet,
    users: Seq<Option<User>>,
    rooms: Seq<Room>,
) -> bool {
    &&& p.origin_x == b.ray.origin_x
    &&& p.origin_y == b.ray.origin_y
    &&& (p.end_x as int, p.end_y as int) == spec_path_end(
        b.ray,
        match bullet_nearest(b, users, rooms) {
            None => None,
            Some(x) => Some(x.distance),
        },
    )
}

/// The two-splice post-state of an elimination: the victim's outgoing link
/// moves to the shooter, the victim's slot is cleared, and a fresh player is
/// spliced back into the same slot after the live player in slot `k`, who
/// handed over its target `t`.
pub open spec fn eliminated(
    pre: Seq<Option<User>>,
    post: Seq<Option<User>>,
    shooter: int,
    victim: int,
    k: int,
    t: usize,
) -> bool {
    let w1 = pre.update(victim, None).update(
        shooter,
        Some(User { target_user_idx: (pre[victim]->0).target_user_idx, ..(pre[shooter]->0) }),
    );
    &&& live(w1, k)
    &&& t as int == target_of(w1, k)
    &&& post == w1.update(k, Some(User { target_user_idx: victim as usize, ..(w1[k]->0) })).update(
        victim,
        Some(spec_new_user((pre[victim]->0).idx, (pre[victim]->0).room_idx, t)),
    )
}

/// Where the rendered trace of a bullet ends: at the struck point, or a
/// fixed length down the ray (measured with the integer norm of the
/// direction) when nothing was struck. A degenerate ray ends at its origin.
pub open spec fn spec_path_end(ray: Ray, d: Option<Frac>) -> (int, int) {
    match d {
        Some(f) => (
            ray.origin_x + div_trunc(f.num as int * ray.direction_x as int, f.den as int),
            ray.origin_y + div_trunc(f.num as int * ray.direction_y as int, f.den as int),
        ),
        None => {
            let len2 = ray.direction_x * ray.direction_x + ray.direction_y * ray.direction_y;
            let mag = int_sqrt(len2);
            if mag == 0 {
                (ray.origin_x as int, ray.origin_y as int)
            } else {
                (
                    ray.origin_x + div_trunc(BULLET_RANGE * ray.direction_x, mag),
                    ray.origin_y + div_trunc(BULLET_RANGE * ray.direction_y, mag),
                )
            }
        },
    }
}

impl BulletPath {
    /// The rendered trace of `bullet`, ending at the struck distance or at
    /// the default length.
    pub fn from_bullet(bullet: &Bullet, distance: Option<Frac>) -> (r: BulletPath)
        requires
            bullet.ray.wf(),
            distance matches Some(f) ==> f.wf(),
        ensures
            r.origin_x == bullet.ray.origin_x,
            r.origin_y == bullet.ray.origin_y,
            (r.end_x as int, r.end_y as int) == spec_path_end(bullet.ray, distance),
    {
        let origin_x: i64 = bullet.ray.origin_x;
        let origin_y: i64 = bullet.ray.origin_y;
        match distance {
            Some(f) => {
                proof {
                    lemma_mul_bound2(
                        f.num as int,
                        bullet.ray.direction_x as int,
                        crate::frac::FRAC_LIMIT as int,
                        RAY_LIMIT as int,
                    );
                    lemma_mul_bound2(
                        f.num as int,
                        bullet.ray.direction_y as int,
                        crate::frac::FRAC_LIMIT as int,
                        RAY_LIMIT as int,
                    );
                }
                let end_x: i64 = origin_x + div_trunc_i64(
                    f.num * bullet.ray.direction_x,
                    f.den,
                );
                let end_y: i64 = origin_y + div_trunc_i64(
                    f.num * bullet.ray.direction_y,
                    f.den,
                );
                BulletPath { origin_x, origin_y, end_x, end_y }
            },
            None => {
                let dx: i64 = bullet.ray.direction_x;
                let dy: i64 = bullet.ray.direction_y;
                proof {
                    lemma_mul_bound(dx as int, dx as int, RAY_LIMIT as int);
                    lemma_mul_bound(dy as int, dy as int, RAY_LIMIT as int);
                    assert(dx as int * dx as int >= 0) by (nonlinear_arith);
                    assert(dy as int * dy as int >= 0) by (nonlinear_arith);
                }
                let len2: i64 = dx * dx + dy * dy;
                let mag_u: u64 = isqrt(len2 as u64);
                proof {
                    lemma_int_sqrt_unique(len2 as int, mag_u as int);
                }
                proof {
                    assert(mag_u < 0x8000_0000);
                }
                let mag: i64 = mag_u as i64;
                if mag == 0 {
                    BulletPath { origin_x, origin_y, end_x: origin_x, end_y: origin_y }
                } else {
                    proof {
                        lemma_mul_bound2(BULLET_RANGE as int, dx as int, 0x1000, RAY_LIMIT as int);
                        lemma_mul_bound2(BULLET_RANGE as int, dy as int, 0x1000, RAY_LIMIT as int);
                    }
                    let end_x: i64 = origin_x + div_trunc_i64(BULLET_RANGE * dx, mag);
                    let end_y: i64 = origin_y + div_trunc_i64(BULLET_RANGE * dy, mag);
                    BulletPath { origin_x, origin_y, end_x, end_y }
                }
            },
        }
    }
}

/// Eliminate `victim`, shot by `shooter`: the shooter absorbs the victim's
/// outgoing target link, the slot is cleared and refilled at once by a fresh
/// player spliced into the chain at a random live slot. The chain invariant
/// survives whenever the victim really was the shooter's current target.
#[verifier::rlimit(100)]
#[verifier::spinoff_prover]
fn eliminate_target(users: &mut Vec<Option<User>>, shooter: usize, victim: usize)
    requires
        shooter < old(users)@.len(),
        victim < old(users)@.len(),
        shooter != victim,
        old(users)@[shooter as int] is Some,
        old(users)@[victim as int] is Some,
        users_wf_bounded(old(users)@, SCAN_LIMIT as int),
    ensures
        final(users)@.len() == old(users)@.len(),
        users_wf_bounded(final(users)@, SCAN_LIMIT as int),
        forall|bb: int|
            0 <= bb && users_wf_bounded(old(users)@, bb) ==> users_wf_bounded(final(users)@, bb),
        forall|rl: int|
            rooms_indexed(old(users)@, rl) ==> rooms_indexed(final(users)@, rl),
        exists|k: int, t: usize|
            eliminated(old(users)@, final(users)@, shooter as int, victim as int, k, t),
        chain_ok(old(users)@) && victim as int == target_of(old(users)@, shooter as int)
            ==> chain_ok(final(users)@),
{
    let ghost pre = users@;
    let killed: User = match users[victim] {
        Some(u) => u,
        None => unreached(),
    };
    users.set(victim, None);
    let owner: User = match users[shooter] {
        Some(u) => u,
        None => unreached(),
    };
    users.set(shooter, Some(User { target_user_idx: killed.target_user_idx, ..owner }));
    let ghost w1 = users@;
    let t: usize = User::get_target_idx(users, victim);
    proof {
        assert(live(w1, shooter as int));
        assert(!crate::chain::no_live(w1));
    }
    let ghost k = choose|k: int| splice_source(w1, users@, k, victim, t);
    let ghost mid = users@;
    let fresh: User = User::new(killed.idx, killed.room_idx, t);
    users.set(victim, Some(fresh));
    proof {
        assert(splice_source(w1, mid, k, victim, t));
        assert(users@ == mid.update(victim as int, Some(fresh)));
        assert(eliminated(pre, users@, shooter as int, victim as int, k, t));
        assert forall|bb: int| 0 <= bb && users_wf_bounded(pre, bb) implies users_wf_bounded(
            users@,
            bb,
        ) by {
            assert forall|i: int|
                0 <= i < users@.len() && users@[i] is Some implies ((#[trigger] users@[
                i
            ])->0).wf() && crate::user::state_bounded((users@[i])->0, bb) by {
                if i == victim as int {
                    assert(users@[i] == Some(fresh));
                } else if i == k {
                    assert((users@[i]->0).dynamic_entity == (w1[i]->0).dynamic_entity);
                    assert((w1[i]->0).dynamic_entity == (pre[i]->0).dynamic_entity);
                } else if i == shooter as int {
                    assert((users@[i]->0).dynamic_entity == (pre[i]->0).dynamic_entity);
                } else {
                    assert(users@[i] == pre[i]);
                }
            }
        }
        assert(users_wf_bounded(users@, SCAN_LIMIT as int));
        assert forall|rl: int| rooms_indexed(pre, rl) implies rooms_indexed(users@, rl) by {
            assert forall|i: int|
                0 <= i < users@.len() && users@[i] is Some implies ((#[trigger] users@[
                i
            ])->0).room_idx < rl by {
                if i == victim as int {
                    assert(users@[i] == Some(fresh));
                    assert(fresh.room_idx == (pre[i]->0).room_idx);
                } else if i == k {
                    assert((users@[i]->0).room_idx == (w1[i]->0).room_idx);
                    assert((w1[i]->0).room_idx == (pre[i]->0).room_idx);
                } else if i == shooter as int {
                    assert((users@[i]->0).room_idx == (pre[i]->0).room_idx);
                } else {
                    assert(users@[i] == pre[i]);
                }
            }
        }
        if chain_ok(pre) && victim as int == target_of(pre, shooter as int) {
            lemma_chain_remove(pre, w1, shooter as int, victim as int);
            lemma_chain_join(w1, users@, k, victim as int);
        }
    }
}

impl Bullet {
    /// Resolve this bullet: find the nearest strike among the other live
    /// same-room players and the room's platforms; a struck player is
    /// eliminated only if it is the owner's current target at resolution
    /// time (and the owner still occupies its slot), in which case the
    /// victim's slot is refilled at once by a fresh player spliced into the
    /// target chain. Always yields the rendered trace.
    ///
    /// Striking anyone but the owner's current target changes no slot and
    /// no target link, so the chain invariant always survives.
    #[verifier::rlimit(100)]
    #[verifier::spinoff_prover]
    pub fn tick(&self, users: &mut Vec<Option<User>>, rooms: &Vec<Room>) -> (path: BulletPath)
        requires
            self.ray.wf(),
            self.room_idx < rooms@.len(),
            self.user_idx < old(users)@.len(),
            wf_rooms(rooms@),
            users_wf_bounded(old(users)@, SCAN_LIMIT as int),
        ensures
            final(users)@.len() == old(users)@.len(),
            users_wf_bounded(final(users)@, SCAN_LIMIT as int),
            forall|bb: int|
                0 <= bb && users_wf_bounded(old(users)@, bb) ==> users_wf_bounded(
                    final(users)@,
                    bb,
                ),
            forall|rl: int|
                rooms_indexed(old(users)@, rl) ==> rooms_indexed(final(users)@, rl),
            bullet_applied(old(users)@, final(users)@, *self, rooms@),
            chain_ok(old(users)@) ==> chain_ok(final(users)@),
            is_bullet_path(path, *self, old(users)@, rooms@),
    {
        let ghost pre = users@;
        let room: &Room = &rooms[self.room_idx];
        proof {
            assert forall|i: int|
                0 <= i < users@.len() && users@[i] is Some implies ((#[trigger] users@[
                i
            ])->0).dynamic_entity.entity.wf() by {
                assert(((users@[i])->0).wf() && crate::user::state_bounded(
                    (users@[i])->0,
                    SCAN_LIMIT as int,
                ));
            }
            assert forall|i: int| 0 <= i < room.platforms@.len() implies (#[trigger] room.platforms@[
                i
            ]).wf() by {
                assert(room.wf(rooms@.len() as int));
                assert(crate::room::entity_in_bounds(room.platforms@[i], room.bounds));
            }
        }
        let ghost full_u = bullet_scan_users_rec(*self, pre, 0, None);
        let mut best: Option<Intersection> = None;
        let mut i: usize = 0;
        while i < users.len()
            invariant
                0 <= i <= users@.len(),
                users@ == pre,
                self.ray.wf(),
                forall|j: int|
                    0 <= j < users@.len() && users@[j] is Some ==> ((#[trigger] users@[
                        j
                    ])->0).dynamic_entity.entity.wf(),
                full_u == bullet_scan_users_rec(*self, users@, i as int, best),
                best matches Some(x) ==> bullet_cand_ok(x, *self, users@),
            decreases users@.len() - i,
        {
            if i != self.user_idx {
                match users[i] {
                    None => {},
                    Some(u) => {
                        if u.room_idx == self.room_idx {
                            let hit: Option<Frac> = self.ray.intersection(&u.dynamic_entity.entity);
                            if let Some(f) = hit {
                                let better: bool = match &best {
                                    None => true,
                                    Some(x) => f.lt(&x.distance),
                                };
                                if better {
                                    best = Some(
                                        Intersection {
                                            variant: IntersectionVariant::User(i),
                                            distance: f,
                                        },
                                    );
                                }
                            }
                        }
                    },
                }
            }
            i = i + 1;
        }
        let ghost full = bullet_nearest(*self, pre, rooms@);
        let mut j: usize = 0;
        while j < room.platforms.len()
            invariant
                0 <= j <= room.platforms@.len(),
                users@ == pre,
                self.ray.wf(),
                forall|t: int|
                    0 <= t < room.platforms@.len() ==> (#[trigger] room.platforms@[t]).wf(),
                full == bullet_scan_platforms_rec(*self, room.platforms@, j as int, best),
                best matches Some(x) ==> bullet_cand_ok(x, *self, users@),
            decreases room.platforms@.len() - j,
        {
            let p: Entity = room.platforms[j];
            let hit: Option<Frac> = self.ray.intersection(&p);
            if let Some(f) = hit {
                let better: bool = match &best {
                    None => true,
                    Some(x) => f.lt(&x.distance),
                };
                if better {
                    best = Some(
                        Intersection { variant: IntersectionVariant::Platform, distance: f },
                    );
                }
            }
            j = j + 1;
        }
        let distance: Option<Frac> = match &best {
            None => None,
            Some(x) => Some(x.distance),
        };
        if let Some(x) = best {
            if let IntersectionVariant::User(idx) = x.variant {
                match users[self.user_idx] {
                    Some(owner) => {
                        if owner.target_user_idx == idx {
                            proof {
                                assert(idx as int == target_of(pre, self.user_idx as int));
                            }
                            eliminate_target(users, self.user_idx, idx);
                        }
                    },
                    None => {},
                }
            }
        }
        BulletPath::from_bullet(self, distance)
    }
}

} // verus!
