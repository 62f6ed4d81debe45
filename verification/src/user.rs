use vstd::prelude::*;
use crate::entity::{
    lemma_swept_time_wf, spec_horizontal_bounds, spec_swept, spec_vertical_bounds,
    CollisionVariant, DynamicEntity, Entity, HorizontalCollision,
    HorizontalCollisionDirection, SweptTime, VerticalCollision, VerticalCollisionDirection,
    COORD_SCALE, POS_LIMIT, SIZE_LIMIT, VEL_LIMIT,
};
use crate::frac::{div_trunc, div_trunc_i64, lemma_xt_le_trans, Frac, XTime, xt_le, xt_lt};
use crate::room::{Bounds, Room};

verus! {

/// Ticks a buffered jump request stays alive before landing.
pub const JUMP_BUFFER_TICKS: u8 = 5;

/// Ticks of grace after leaving a ledge during which a jump still fires.
pub const COYOTE_TICKS: u8 = 3;

/// Upward impulse of a jump, dampened by the player's weight.
pub const JUMP_FORCE: i64 = -40 * COORD_SCALE;

/// Per-tick run acceleration while a direction is held.
pub const RUN_START_FORCE: i64 = 1 * COORD_SCALE;

/// Per-tick run deceleration once the direction is released.
pub const RUN_END_FORCE: i64 = 2 * COORD_SCALE;

/// Cap on the horizontal running speed.
pub const RUN_MAX_SPEED: i64 = 5 * COORD_SCALE;

/// Side length of every player's square rectangle.
pub const USER_SIZE: i64 = 10 * COORD_SCALE;

/// Weight of every player.
pub const USER_WEIGHT: i64 = 3;

/// Positions and the vertical velocity the tick orchestrator accepts; a
/// state beyond this is treated as a fatal invariant violation.
pub const CHECK_LIMIT: i64 = 0x100_0000;

/// One player slot: geometry, per-tick velocity, the target-chain link, and
/// the input/state counters of the tick state machine.
#[derive(Clone, Copy, Debug, PartialEq, Eq, Structural)]
pub struct User {
    pub idx: u8,
    pub room_idx: usize,
    pub dynamic_entity: DynamicEntity,
    pub target_user_idx: usize,
    pub jump_buffer_ticks: u8,
    pub coyote_ticks: u8,
    pub holding_left: bool,
    pub holding_right: bool,
    pub holding_down: bool,
}

pub open spec fn spec_new_user(idx: u8, room_idx: usize, target_user_idx: usize) -> User {
    User {
        idx,
        room_idx,
        dynamic_entity: DynamicEntity {
            entity: Entity { x: 0, y: 0, width: USER_SIZE, height: USER_SIZE },
            dx: 0,
            dy: 0,
            weight: USER_WEIGHT,
        },
        target_user_idx,
        jump_buffer_ticks: 0,
        coyote_ticks: 0,
        holding_left: false,
        holding_right: false,
        holding_down: false,
    }
}

impl User {
    /// Structural well-formedness: fixed extents and weight, and a running
    /// speed within the cap. Every operation of the engine preserves it.
    pub open spec fn wf(self) -> bool {
        &&& self.dynamic_entity.entity.width == USER_SIZE
        &&& self.dynamic_entity.entity.height == USER_SIZE
        &&& self.dynamic_entity.weight == USER_WEIGHT
        &&& -RUN_MAX_SPEED <= self.dynamic_entity.dx <= RUN_MAX_SPEED
    }

    /// The state is near enough the playfield for the exact arithmetic of
    /// one more tick; the orchestrator checks this each tick.
    pub open spec fn in_limits(self) -> bool {
        &&& -CHECK_LIMIT <= self.dynamic_entity.entity.x <= CHECK_LIMIT
        &&& -CHECK_LIMIT <= self.dynamic_entity.entity.y <= CHECK_LIMIT
        &&& -CHECK_LIMIT <= self.dynamic_entity.dy <= CHECK_LIMIT
    }

    /// A fresh player at the origin of the given room.
    pub fn new(idx: u8, room_idx: usize, target_user_idx: usize) -> (r: User)
        ensures
            r == spec_new_user(idx, room_idx, target_user_idx),
            r.wf(),
            r.in_limits(),
    {
        let entity = Entity { x: 0, y: 0, width: USER_SIZE, height: USER_SIZE };
        let dynamic_entity = DynamicEntity { entity, dx: 0, dy: 0, weight: USER_WEIGHT };
        User {
            idx,
            room_idx,
            dynamic_entity,
            target_user_idx,
            jump_buffer_ticks: 0,
            coyote_ticks: 0,
            holding_left: false,
            holding_right: false,
            holding_down: false,
        }
    }

    /// Back to the origin of `room_idx` with everything but the index and
    /// the target link reset.
    pub fn respawn(&mut self, room_idx: usize)
        ensures
            *final(self) == (User {
                room_idx,
                dynamic_entity: DynamicEntity {
                    entity: Entity {
                        x: 0,
                        y: 0,
                        ..old(self).dynamic_entity.entity
                    },
                    dx: 0,
                    dy: 0,
                    ..old(self).dynamic_entity
                },
                jump_buffer_ticks: 0,
                coyote_ticks: 0,
                holding_left: false,
                holding_right: false,
                holding_down: false,
                ..*old(self)
            }),
    {
        self.room_idx = room_idx;
        self.dynamic_entity.dx = 0;
        self.dynamic_entity.dy = 0;
        self.dynamic_entity.entity.x = 0;
        self.dynamic_entity.entity.y = 0;
        self.jump_buffer_ticks = 0;
        self.coyote_ticks = 0;
        self.holding_left = false;
        self.holding_right = false;
        self.holding_down = false;
    }
}

/// Velocity after applying gravity: it affects the next tick, not the one
/// just resolved.
pub open spec fn spec_fall(u: User, gravity: i64) -> User {
    User {
        dynamic_entity: DynamicEntity {
            dy: (u.dynamic_entity.dy + gravity) as i64,
            ..u.dynamic_entity
        },
        ..u
    }
}

/// A jump: a fixed impulse dampened by the weight; both grace counters are
/// consumed.
pub open spec fn spec_jump(u: User) -> User {
    User {
        dynamic_entity: DynamicEntity {
            dy: div_trunc(JUMP_FORCE as int, u.dynamic_entity.weight as int) as i64,
            ..u.dynamic_entity
        },
        coyote_ticks: 0,
        jump_buffer_ticks: 0,
        ..u
    }
}

/// Releasing the jump key cuts the current vertical speed in half (rounded
/// toward zero), shortening the jump.
pub open spec fn spec_end_jump(u: User) -> User {
    User {
        dynamic_entity: DynamicEntity {
            dy: div_trunc(u.dynamic_entity.dy as int, 2) as i64,
            ..u.dynamic_entity
        },
        ..u
    }
}

/// Accelerate left, capped at the maximum running speed.
pub open spec fn spec_run_left(u: User) -> User {
    let rs = u.dynamic_entity.dx - RUN_START_FORCE as int / u.dynamic_entity.weight as int;
    User {
        dynamic_entity: DynamicEntity {
            dx: if rs > -RUN_MAX_SPEED {
                rs as i64
            } else {
                (-RUN_MAX_SPEED) as i64
            },
            ..u.dynamic_entity
        },
        ..u
    }
}

/// Decelerate a leftward run toward rest, never past it.
pub open spec fn spec_end_run_left(u: User) -> User {
    let rs = u.dynamic_entity.dx + RUN_END_FORCE as int / u.dynamic_entity.weight as int;
    User {
        dynamic_entity: DynamicEntity {
            dx: if rs < 0 {
                rs as i64
            } else {
                0
            },
            ..u.dynamic_entity
        },
        ..u
    }
}

/// Accelerate right, capped at the maximum running speed.
pub open spec fn spec_run_right(u: User) -> User {
    let rs = u.dynamic_entity.dx + RUN_START_FORCE as int / u.dynamic_entity.weight as int;
    User {
        dynamic_entity: DynamicEntity {
            dx: if rs < RUN_MAX_SPEED {
                rs as i64
            } else {
                RUN_MAX_SPEED
            },
            ..u.dynamic_entity
        },
        ..u
    }
}

/// Decelerate a rightward run toward rest, never past it.
pub open spec fn spec_end_run_right(u: User) -> User {
    let rs = u.dynamic_entity.dx - RUN_END_FORCE as int / u.dynamic_entity.weight as int;
    User {
        dynamic_entity: DynamicEntity {
            dx: if rs > 0 {
                rs as i64
            } else {
                0
            },
            ..u.dynamic_entity
        },
        ..u
    }
}

impl User {
    pub fn fall(&mut self, gravity: i64)
        requires
            0 <= gravity <= 0x1000,
            -VEL_LIMIT <= old(self).dynamic_entity.dy <= VEL_LIMIT,
        ensures
            *final(self) == spec_fall(*old(self), gravity),
    {
        self.dynamic_entity.dy = self.dynamic_entity.dy + gravity;
    }

    pub fn jump(&mut self)
        requires
            old(self).dynamic_entity.weight >= 1,
        ensures
            *final(self) == spec_jump(*old(self)),
    {
        self.dynamic_entity.dy = div_trunc_i64(JUMP_FORCE, self.dynamic_entity.weight);
        self.coyote_ticks = 0;
        self.jump_buffer_ticks = 0;
    }

    pub fn end_jump(&mut self)
        requires
            -VEL_LIMIT <= old(self).dynamic_entity.dy <= VEL_LIMIT,
        ensures
            *final(self) == spec_end_jump(*old(self)),
    {
        self.dynamic_entity.dy = div_trunc_i64(self.dynamic_entity.dy, 2);
    }

    pub fn run_left(&mut self)
        requires
            old(self).wf(),
        ensures
            *final(self) == spec_run_left(*old(self)),
            final(self).wf(),
            final(self).dynamic_entity.dx < old(self).dynamic_entity.dx
                || final(self).dynamic_entity.dx == -RUN_MAX_SPEED,
    {
        let run_speed: i64 = self.dynamic_entity.dx - div_trunc_i64(
            RUN_START_FORCE,
            self.dynamic_entity.weight,
        );
        self.dynamic_entity.dx = if run_speed > -RUN_MAX_SPEED {
            run_speed
        } else {
            -RUN_MAX_SPEED
        };
    }

    pub fn end_run_left(&mut self)
        requires
            old(self).wf(),
        ensures
            *final(self) == spec_end_run_left(*old(self)),
            final(self).wf(),
    {
        let run_speed: i64 = self.dynamic_entity.dx + div_trunc_i64(
            RUN_END_FORCE,
            self.dynamic_entity.weight,
        );
        self.dynamic_entity.dx = if run_speed < 0 {
            run_speed
        } else {
            0
        };
    }

    pub fn run_right(&mut self)
        requires
            old(self).wf(),
        ensures
            *final(self) == spec_run_right(*old(self)),
            final(self).wf(),
            final(self).dynamic_entity.dx > old(self).dynamic_entity.dx
                || final(self).dynamic_entity.dx == RUN_MAX_SPEED,
    {
        let run_speed: i64 = self.dynamic_entity.dx + div_trunc_i64(
            RUN_START_FORCE,
            self.dynamic_entity.weight,
        );
        self.dynamic_entity.dx = if run_speed < RUN_MAX_SPEED {
            run_speed
        } else {
            RUN_MAX_SPEED
        };
    }

    pub fn end_run_right(&mut self)
        requires
            old(self).wf(),
        ensures
            *final(self) == spec_end_run_right(*old(self)),
            final(self).wf(),
    {
        let run_speed: i64 = self.dynamic_entity.dx - div_trunc_i64(
            RUN_END_FORCE,
            self.dynamic_entity.weight,
        );
        self.dynamic_entity.dx = if run_speed > 0 {
            run_speed
        } else {
            0
        };
    }
}

/// Running minimum on the horizontal axis: the time of the best candidate
/// so far, or plus infinity when none was accepted yet.
pub open spec fn h_time_of(h: Option<HorizontalCollision>) -> XTime {
    match h {
        None => XTime::PInf,
        Some(c) => c.time@,
    }
}

/// Running minimum on the vertical axis.
pub open spec fn v_time_of(v: Option<VerticalCollision>) -> XTime {
    match v {
        None => XTime::PInf,
        Some(c) => c.time@,
    }
}

/// The executable form of an extended time (meaningful when the fields of a
/// finite value fit in `i64`, which holds of every time the engine builds).
pub open spec fn st_of_xt(t: XTime) -> SweptTime {
    match t {
        XTime::MInf => SweptTime::MinusInfinity,
        XTime::Fin { n, d } => SweptTime::Finite(Frac { num: n as i64, den: d as i64 }),
        XTime::PInf => SweptTime::PlusInfinity,
    }
}

/// One same-room player against the mover: a candidate on the axis the
/// swept test chose, kept when its time beats the running minimum of that
/// axis.
pub open spec fn scan_user_step(
    de: DynamicEntity,
    u: User,
    room_idx: int,
    h: Option<HorizontalCollision>,
    v: Option<VerticalCollision>,
) -> (Option<HorizontalCollision>, Option<VerticalCollision>) {
    if u.room_idx as int != room_idx {
        (h, v)
    } else {
        let (t, hd, vd) = spec_swept(de, u.dynamic_entity.entity);
        if hd is Some {
            if xt_lt(t, h_time_of(h)) {
                (
                    Some(
                        HorizontalCollision {
                            variant: CollisionVariant::User(u.dynamic_entity.entity),
                            direction: hd->0,
                            time: st_of_xt(t),
                        },
                    ),
                    v,
                )
            } else {
                (h, v)
            }
        } else if vd is Some {
            if xt_lt(t, v_time_of(v)) {
                (
                    h,
                    Some(
                        VerticalCollision {
                            variant: CollisionVariant::User(u.dynamic_entity.entity),
                            direction: vd->0,
                            time: st_of_xt(t),
                        },
                    ),
                )
            } else {
                (h, v)
            }
        } else {
            (h, v)
        }
    }
}

/// Fold of `scan_user_step` over the slots from `i` on; vacant slots are
/// skipped.
pub open spec fn scan_users_rec(
    de: DynamicEntity,
    users: Seq<Option<User>>,
    room_idx: int,
    i: int,
    h: Option<HorizontalCollision>,
    v: Option<VerticalCollision>,
) -> (Option<HorizontalCollision>, Option<VerticalCollision>)
    decreases users.len() - i,
{
    if i < 0 || i >= users.len() {
        (h, v)
    } else {
        let (h2, v2) = match users[i] {
            None => (h, v),
            Some(u) => scan_user_step(de, u, room_idx, h, v),
        };
        scan_users_rec(de, users, room_idx, i + 1, h2, v2)
    }
}

/// One platform against the mover: platforms are one-way, so only a
/// vertical candidate of a downward mover counts, and a pending drop-through
/// request swallows one such candidate and is consumed by it.
pub open spec fn scan_platform_step(
    de: DynamicEntity,
    p: Entity,
    holding_down: bool,
    v: Option<VerticalCollision>,
) -> (bool, Option<VerticalCollision>) {
    let (t, hd, vd) = spec_swept(de, p);
    if de.dy > 0 && vd is Some {
        if holding_down {
            (false, v)
        } else if xt_lt(t, v_time_of(v)) {
            (
                holding_down,
                Some(
                    VerticalCollision {
                        variant: CollisionVariant::Platform(p),
                        direction: vd->0,
                        time: st_of_xt(t),
                    },
                ),
            )
        } else {
            (holding_down, v)
        }
    } else {
        (holding_down, v)
    }
}

pub open spec fn scan_platforms_rec(
    de: DynamicEntity,
    platforms: Seq<Entity>,
    i: int,
    holding_down: bool,
    v: Option<VerticalCollision>,
) -> (bool, Option<VerticalCollision>)
    decreases platforms.len() - i,
{
    if i < 0 || i >= platforms.len() {
        (holding_down, v)
    } else {
        let (hd2, v2) = scan_platform_step(de, platforms[i], holding_down, v);
        scan_platforms_rec(de, platforms, i + 1, hd2, v2)
    }
}

/// One door against the mover, like a player but carrying the door.
pub open spec fn scan_door_step(
    de: DynamicEntity,
    door: crate::room::Door,
    h: Option<HorizontalCollision>,
    v: Option<VerticalCollision>,
) -> (Option<HorizontalCollision>, Option<VerticalCollision>) {
    let (t, hd, vd) = spec_swept(de, door.entity);
    if hd is Some {
        if xt_lt(t, h_time_of(h)) {
            (
                Some(
                    HorizontalCollision {
                        variant: CollisionVariant::Door(door),
                        direction: hd->0,
                        time: st_of_xt(t),
                    },
                ),
                v,
            )
        } else {
            (h, v)
        }
    } else if vd is Some {
        if xt_lt(t, v_time_of(v)) {
            (
                h,
                Some(
                    VerticalCollision {
                        variant: CollisionVariant::Door(door),
                        direction: vd->0,
                        time: st_of_xt(t),
                    },
                ),
            )
        } else {
            (h, v)
        }
    } else {
        (h, v)
    }
}

pub open spec fn scan_doors_rec(
    de: DynamicEntity,
    doors: Seq<crate::room::Door>,
    i: int,
    h: Option<HorizontalCollision>,
    v: Option<VerticalCollision>,
) -> (Option<HorizontalCollision>, Option<VerticalCollision>)
    decreases doors.len() - i,
{
    if i < 0 || i >= doors.len() {
        (h, v)
    } else {
        let (h2, v2) = scan_door_step(de, doors[i], h, v);
        scan_doors_rec(de, doors, i + 1, h2, v2)
    }
}

/// Shape of a horizontal candidate that the scans can produce: a player's
/// rectangle or a door of the given list, with a well-formed time. The
/// walls enter only through the fallback, and platforms never horizontally.
pub open spec fn h_cand_ok(
    c: HorizontalCollision,
    users: Seq<Option<User>>,
    doors: Seq<crate::room::Door>,
) -> bool {
    &&& c.time.wf()
    &&& match c.variant {
        CollisionVariant::Bounds => false,
        CollisionVariant::User(e) => e.wf() && exists|k: int|
            0 <= k < users.len() && users[k] is Some && ((#[trigger] users[k])->0).dynamic_entity.entity
                == e,
        CollisionVariant::Platform(_) => false,
        CollisionVariant::Door(d) => exists|k: int| 0 <= k < doors.len() && doors[k] == d,
    }
}

/// Shape of a vertical candidate that the scans can produce; a platform
/// candidate always points down.
pub open spec fn v_cand_ok(
    c: VerticalCollision,
    users: Seq<Option<User>>,
    doors: Seq<crate::room::Door>,
    platforms: Seq<Entity>,
) -> bool {
    &&& c.time.wf()
    &&& match c.variant {
        CollisionVariant::Bounds => false,
        CollisionVariant::User(e) => e.wf() && exists|k: int|
            0 <= k < users.len() && users[k] is Some && ((#[trigger] users[k])->0).dynamic_entity.entity
                == e,
        CollisionVariant::Platform(e) => (exists|k: int| 0 <= k < platforms.len() && platforms[k] == e)
            && c.direction is Down,
        CollisionVariant::Door(d) => exists|k: int| 0 <= k < doors.len() && doors[k] == d,
    }
}

/// Sweep against every other live same-room player, keeping the earliest
/// candidate of each axis.
pub fn scan_users(de: &DynamicEntity, room_idx: usize, users: &Vec<Option<User>>) -> (r: (
    Option<HorizontalCollision>,
    Option<VerticalCollision>,
))
    requires
        de.wf(),
        forall|i: int|
            0 <= i < users@.len() && users@[i] is Some ==> ((#[trigger] users@[
                i
            ])->0).dynamic_entity.entity.wf(),
    ensures
        r == scan_users_rec(*de, users@, room_idx as int, 0, None, None),
        r.0 matches Some(c) ==> h_cand_ok(c, users@, Seq::<crate::room::Door>::empty()),
        r.1 matches Some(c) ==> v_cand_ok(
            c,
            users@,
            Seq::<crate::room::Door>::empty(),
            Seq::<Entity>::empty(),
        ),
{
    let ghost full = scan_users_rec(*de, users@, room_idx as int, 0, None, None);
    let mut h: Option<HorizontalCollision> = None;
    let mut v: Option<VerticalCollision> = None;
    let mut i: usize = 0;
    while i < users.len()
        invariant
            0 <= i <= users@.len(),
            de.wf(),
            forall|k: int|
                0 <= k < users@.len() && users@[k] is Some ==> ((#[trigger] users@[
                    k
                ])->0).dynamic_entity.entity.wf(),
            full == scan_users_rec(*de, users@, room_idx as int, i as int, h, v),
            h matches Some(c) ==> h_cand_ok(c, users@, Seq::<crate::room::Door>::empty()),
            v matches Some(c) ==> v_cand_ok(
                c,
                users@,
                Seq::<crate::room::Door>::empty(),
                Seq::<Entity>::empty(),
            ),
        decreases users@.len() - i,
    {
        match users[i] {
            None => {},
            Some(u) => {
                if u.room_idx == room_idx {
                    let (t, hd, vd) = de.swept_collision(&u.dynamic_entity.entity);
                    if let Some(direction) = hd {
                        let better: bool = match &h {
                            None => true,
                            Some(c) => crate::entity::st_lt(&t, &c.time),
                        };
                        if better {
                            h = Some(
                                HorizontalCollision {
                                    variant: CollisionVariant::User(u.dynamic_entity.entity),
                                    direction,
                                    time: t,
                                },
                            );
                        }
                    } else if let Some(direction) = vd {
                        let better: bool = match &v {
                            None => true,
                            Some(c) => crate::entity::st_lt(&t, &c.time),
                        };
                        if better {
                            v = Some(
                                VerticalCollision {
                                    variant: CollisionVariant::User(u.dynamic_entity.entity),
                                    direction,
                                    time: t,
                                },
                            );
                        }
                    }
                }
            },
        }
        i = i + 1;
    }
    (h, v)
}

/// Sweep against every platform: one-way, downward movers only, with the
/// drop-through flag consumed by the first vertical platform candidate.
pub fn scan_platforms(
    de: &DynamicEntity,
    platforms: &Vec<Entity>,
    holding_down: bool,
    v0: Option<VerticalCollision>,
    Ghost(users): Ghost<Seq<Option<User>>>,
    Ghost(doors): Ghost<Seq<crate::room::Door>>,
) -> (r: (bool, Option<VerticalCollision>))
    requires
        de.wf(),
        forall|i: int| 0 <= i < platforms@.len() ==> (#[trigger] platforms@[i]).wf(),
        v0 matches Some(c) ==> v_cand_ok(c, users, doors, Seq::<Entity>::empty()),
    ensures
        r == scan_platforms_rec(*de, platforms@, 0, holding_down, v0),
        r.1 matches Some(c) ==> v_cand_ok(c, users, doors, platforms@),
{
    let ghost full = scan_platforms_rec(*de, platforms@, 0, holding_down, v0);
    let mut hd: bool = holding_down;
    let mut v: Option<VerticalCollision> = v0;
    let mut i: usize = 0;
    while i < platforms.len()
        invariant
            0 <= i <= platforms@.len(),
            de.wf(),
            forall|k: int| 0 <= k < platforms@.len() ==> (#[trigger] platforms@[k]).wf(),
            full == scan_platforms_rec(*de, platforms@, i as int, hd, v),
            v matches Some(c) ==> v_cand_ok(c, users, doors, platforms@),
        decreases platforms@.len() - i,
    {
        let p: Entity = platforms[i];
        let (t, _, vd) = de.swept_collision(&p);
        if de.dy > 0 {
            if let Some(direction) = vd {
                if hd {
                    hd = false;
                } else {
                    let better: bool = match &v {
                        None => true,
                        Some(c) => crate::entity::st_lt(&t, &c.time),
                    };
                    if better {
                        v = Some(
                            VerticalCollision {
                                variant: CollisionVariant::Platform(p),
                                direction,
                                time: t,
                            },
                        );
                    }
                }
            }
        }
        i = i + 1;
    }
    (hd, v)
}

/// Sweep against every door of the room, keeping the earliest candidate of
/// each axis.
pub fn scan_doors(
    de: &DynamicEntity,
    doors: &Vec<crate::room::Door>,
    h0: Option<HorizontalCollision>,
    v0: Option<VerticalCollision>,
    Ghost(users): Ghost<Seq<Option<User>>>,
    Ghost(platforms): Ghost<Seq<Entity>>,
) -> (r: (Option<HorizontalCollision>, Option<VerticalCollision>))
    requires
        de.wf(),
        forall|i: int| 0 <= i < doors@.len() ==> ((#[trigger] doors@[i]).entity).wf(),
        h0 matches Some(c) ==> h_cand_ok(c, users, doors@),
        v0 matches Some(c) ==> v_cand_ok(c, users, doors@, platforms),
    ensures
        r == scan_doors_rec(*de, doors@, 0, h0, v0),
        r.0 matches Some(c) ==> h_cand_ok(c, users, doors@),
        r.1 matches Some(c) ==> v_cand_ok(c, users, doors@, platforms),
{
    let ghost full = scan_doors_rec(*de, doors@, 0, h0, v0);
    let mut h: Option<HorizontalCollision> = h0;
    let mut v: Option<VerticalCollision> = v0;
    let mut i: usize = 0;
    while i < doors.len()
        invariant
            0 <= i <= doors@.len(),
            de.wf(),
            forall|k: int| 0 <= k < doors@.len() ==> ((#[trigger] doors@[k]).entity).wf(),
            full == scan_doors_rec(*de, doors@, i as int, h, v),
            h matches Some(c) ==> h_cand_ok(c, users, doors@),
            v matches Some(c) ==> v_cand_ok(c, users, doors@, platforms),
        decreases doors@.len() - i,
    {
        let door: crate::room::Door = doors[i];
        let (t, hdir, vd) = de.swept_collision(&door.entity);
        if let Some(direction) = hdir {
            let better: bool = match &h {
                None => true,
                Some(c) => crate::entity::st_lt(&t, &c.time),
            };
            if better {
                h = Some(
                    HorizontalCollision {
                        variant: CollisionVariant::Door(door),
                        direction,
                        time: t,
                    },
                );
            }
        } else if let Some(direction) = vd {
            let better: bool = match &v {
                None => true,
                Some(c) => crate::entity::st_lt(&t, &c.time),
            };
            if better {
                v = Some(
                    VerticalCollision {
                        variant: CollisionVariant::Door(door),
                        direction,
                        time: t,
                    },
                );
            }
        }
        i = i + 1;
    }
    (h, v)
}

/// Response to a horizontal collision: snap beside the obstacle and stop,
/// or step through a door into its paired room (a door keeps the speed).
pub open spec fn spec_h_collision_response(
    u: User,
    c: HorizontalCollision,
    bounds: Bounds,
    rooms: Seq<Room>,
) -> User {
    match c.direction {
        HorizontalCollisionDirection::Left => match c.variant {
            CollisionVariant::Bounds => User {
                dynamic_entity: DynamicEntity {
                    entity: Entity { x: 0, ..u.dynamic_entity.entity },
                    dx: 0,
                    ..u.dynamic_entity
                },
                ..u
            },
            CollisionVariant::User(e) => User {
                dynamic_entity: DynamicEntity {
                    entity: Entity { x: (e.x + e.width) as i64, ..u.dynamic_entity.entity },
                    dx: 0,
                    ..u.dynamic_entity
                },
                ..u
            },
            CollisionVariant::Platform(_) => u,
            CollisionVariant::Door(d) => {
                let dest = rooms[d.room_idx as int].doors@[d.door_idx as int].entity;
                User {
                    room_idx: d.room_idx,
                    dynamic_entity: DynamicEntity {
                        entity: Entity {
                            x: (dest.x - u.dynamic_entity.entity.width) as i64,
                            ..u.dynamic_entity.entity
                        },
                        ..u.dynamic_entity
                    },
                    ..u
                }
            },
        },
        HorizontalCollisionDirection::Right => match c.variant {
            CollisionVariant::Bounds => User {
                dynamic_entity: DynamicEntity {
                    entity: Entity {
                        x: (bounds.x_max - u.dynamic_entity.entity.width) as i64,
                        ..u.dynamic_entity.entity
                    },
                    dx: 0,
                    ..u.dynamic_entity
                },
                ..u
            },
            CollisionVariant::User(e) => User {
                dynamic_entity: DynamicEntity {
                    entity: Entity {
                        x: (e.x - u.dynamic_entity.entity.width) as i64,
                        ..u.dynamic_entity.entity
                    },
                    dx: 0,
                    ..u.dynamic_entity
                },
                ..u
            },
            CollisionVariant::Platform(_) => u,
            CollisionVariant::Door(d) => {
                let dest = rooms[d.room_idx as int].doors@[d.door_idx as int].entity;
                User {
                    room_idx: d.room_idx,
                    dynamic_entity: DynamicEntity {
                        entity: Entity { x: (dest.x + dest.width) as i64, ..u.dynamic_entity.entity },
                        ..u.dynamic_entity
                    },
                    ..u
                }
            },
        },
    }
}

/// Response to a vertical collision: snap onto or under the obstacle and
/// stop falling or rising; a landing either fires a buffered jump at once or
/// opens the coyote-time window.
pub open spec fn spec_v_collision_response(u: User, c: VerticalCollision, bounds: Bounds) -> User {
    match c.direction {
        VerticalCollisionDirection::Down => {
            let snapped_y = match c.variant {
                CollisionVariant::Bounds => (bounds.y_max - u.dynamic_entity.entity.height) as i64,
                CollisionVariant::User(e) => (e.y - u.dynamic_entity.entity.height) as i64,
                CollisionVariant::Platform(e) => (e.y - u.dynamic_entity.entity.height) as i64,
                CollisionVariant::Door(d) => (d.entity.y - u.dynamic_entity.entity.height) as i64,
            };
            let u1 = User {
                dynamic_entity: DynamicEntity {
                    entity: Entity { y: snapped_y, ..u.dynamic_entity.entity },
                    dy: 0,
                    ..u.dynamic_entity
                },
                ..u
            };
            if u1.jump_buffer_ticks > 0 {
                spec_jump(u1)
            } else {
                User { coyote_ticks: COYOTE_TICKS, ..u1 }
            }
        },
        VerticalCollisionDirection::Up => {
            let snapped_y = match c.variant {
                CollisionVariant::Bounds => 0,
                CollisionVariant::User(e) => (e.y + e.height) as i64,
                CollisionVariant::Platform(_) => u.dynamic_entity.entity.y,
                CollisionVariant::Door(d) => (d.entity.y + d.entity.height) as i64,
            };
            User {
                dynamic_entity: DynamicEntity {
                    entity: Entity { y: snapped_y, ..u.dynamic_entity.entity },
                    dy: 0,
                    ..u.dynamic_entity
                },
                ..u
            }
        },
    }
}

impl User {
    /// Apply a horizontal collision. The scans never classify a platform
    /// horizontally, so that variant cannot arrive here.
    pub fn handle_horizontal_collision(
        &mut self,
        collision: HorizontalCollision,
        bounds: &Bounds,
        rooms: &Vec<Room>,
    )
        requires
            old(self).wf(),
            bounds.wf(),
            crate::room::wf_rooms(rooms@),
            match collision.variant {
                CollisionVariant::Bounds => true,
                CollisionVariant::User(e) => e.wf(),
                CollisionVariant::Platform(_) => false,
                CollisionVariant::Door(d) => d.room_idx < rooms@.len() && d.door_idx < rooms@[
                    d.room_idx as int
                ].doors@.len(),
            },
        ensures
            *final(self) == spec_h_collision_response(*old(self), collision, *bounds, rooms@),
            final(self).wf(),
    {
        match collision.direction {
            HorizontalCollisionDirection::Left => {
                match collision.variant {
                    CollisionVariant::Bounds => {
                        self.dynamic_entity.entity.x = 0;
                        self.dynamic_entity.dx = 0;
                    },
                    CollisionVariant::User(entity) => {
                        self.dynamic_entity.entity.x = entity.x + entity.width;
                        self.dynamic_entity.dx = 0;
                    },
                    CollisionVariant::Platform(_) => {
                        unreached::<()>();
                    },
                    CollisionVariant::Door(door) => {
                        let room_idx: usize = door.room_idx;
                        let entity: Entity = rooms[room_idx].doors[door.door_idx].entity;
                        self.room_idx = room_idx;
                        self.dynamic_entity.entity.x = entity.x - self.dynamic_entity.entity.width;
                    },
                }
            },
            HorizontalCollisionDirection::Right => {
                match collision.variant {
                    CollisionVariant::Bounds => {
                        self.dynamic_entity.entity.x = bounds.x_max - self.dynamic_entity.entity.width;
                        self.dynamic_entity.dx = 0;
                    },
                    CollisionVariant::User(entity) => {
                        self.dynamic_entity.entity.x = entity.x - self.dynamic_entity.entity.width;
                        self.dynamic_entity.dx = 0;
                    },
                    CollisionVariant::Platform(_) => {
                        unreached::<()>();
                    },
                    CollisionVariant::Door(door) => {
                        let room_idx: usize = door.room_idx;
                        let entity: Entity = rooms[room_idx].doors[door.door_idx].entity;
                        self.room_idx = room_idx;
                        self.dynamic_entity.entity.x = entity.x + entity.width;
                    },
                }
            },
        }
    }

    /// Apply a vertical collision. The scans only classify a platform
    /// downward, so an upward platform hit cannot arrive here.
    pub fn handle_vertical_collision(
        &mut self,
        collision: VerticalCollision,
        bounds: &Bounds,
    )
        requires
            old(self).wf(),
            bounds.wf(),
            match collision.variant {
                CollisionVariant::Bounds => true,
                CollisionVariant::User(e) => e.wf(),
                CollisionVariant::Platform(e) => e.wf() && collision.direction
                    is Down,
                CollisionVariant::Door(d) => d.entity.wf(),
            },
        ensures
            *final(self) == spec_v_collision_response(*old(self), collision, *bounds),
            final(self).wf(),
    {
        match collision.direction {
            VerticalCollisionDirection::Down => {
                match collision.variant {
                    CollisionVariant::Bounds => {
                        self.dynamic_entity.entity.y = bounds.y_max - self.dynamic_entity.entity.height;
                    },
                    CollisionVariant::User(entity) => {
                        self.dynamic_entity.entity.y = entity.y - self.dynamic_entity.entity.height;
                    },
                    CollisionVariant::Platform(entity) => {
                        self.dynamic_entity.entity.y = entity.y - self.dynamic_entity.entity.height;
                    },
                    CollisionVariant::Door(door) => {
                        self.dynamic_entity.entity.y = door.entity.y - self.dynamic_entity.entity.height;
                    },
                }
                self.dynamic_entity.dy = 0;
                if self.jump_buffer_ticks > 0 {
                    self.jump();
                } else {
                    self.coyote_ticks = COYOTE_TICKS;
                }
            },
            VerticalCollisionDirection::Up => {
                match collision.variant {
                    CollisionVariant::Bounds => {
                        self.dynamic_entity.entity.y = 0;
                    },
                    CollisionVariant::User(entity) => {
                        self.dynamic_entity.entity.y = entity.y + entity.height;
                    },
                    CollisionVariant::Platform(_) => {
                        unreached::<()>();
                    },
                    CollisionVariant::Door(door) => {
                        self.dynamic_entity.entity.y = door.entity.y + door.entity.height;
                    },
                }
                self.dynamic_entity.dy = 0;
            },
        }
    }
}

/// Bound on positions and the vertical velocity that one tick accepts;
/// large enough that a whole round of integration started inside
/// `CHECK_LIMIT` stays inside it.
pub const SCAN_LIMIT: i64 = 0x300_0000;

/// How much one tick can add to the magnitude of a state.
pub const TICK_SLACK: i64 = 0x2_0000;

/// Position and vertical velocity within `b`.
pub open spec fn state_bounded(u: User, b: int) -> bool {
    &&& -b <= u.dynamic_entity.entity.x <= b
    &&& -b <= u.dynamic_entity.entity.y <= b
    &&& -b <= u.dynamic_entity.dy <= b
}

/// Every live player's room index lies below `rl`.
pub open spec fn rooms_indexed(users: Seq<Option<User>>, rl: int) -> bool {
    forall|i: int|
        0 <= i < users.len() && users[i] is Some ==> ((#[trigger] users[i])->0).room_idx < rl
}

/// Every live slot is well-formed and within `b`.
pub open spec fn users_wf_bounded(users: Seq<Option<User>>, b: int) -> bool {
    forall|i: int|
        0 <= i < users.len() && users[i] is Some ==> ((#[trigger] users[i])->0).wf()
            && state_bounded(users[i]->0, b)
}

/// Advance horizontally when nothing was hit; a run in the direction of
/// travel that is no longer held decelerates.
pub open spec fn spec_move_h(u: User) -> User {
    let u1 = User {
        dynamic_entity: DynamicEntity {
            entity: Entity {
                x: (u.dynamic_entity.entity.x + u.dynamic_entity.dx) as i64,
                ..u.dynamic_entity.entity
            },
            ..u.dynamic_entity
        },
        ..u
    };
    if u.dynamic_entity.dx > 0 {
        if !u.holding_right {
            spec_end_run_right(u1)
        } else {
            u1
        }
    } else if u.dynamic_entity.dx < 0 {
        if !u.holding_left {
            spec_end_run_left(u1)
        } else {
            u1
        }
    } else {
        u1
    }
}

/// Advance vertically when nothing was hit; the coyote window closes by one
/// tick.
pub open spec fn spec_move_v(u: User) -> User {
    let u1 = User {
        dynamic_entity: DynamicEntity {
            entity: Entity {
                y: (u.dynamic_entity.entity.y + u.dynamic_entity.dy) as i64,
                ..u.dynamic_entity.entity
            },
            ..u.dynamic_entity
        },
        ..u
    };
    if u.coyote_ticks > 0 {
        User { coyote_ticks: (u.coyote_ticks - 1) as u8, ..u1 }
    } else {
        u1
    }
}

/// End-of-tick jump buffering: a pending request fires while the coyote
/// window is open, otherwise it expires by one tick.
pub open spec fn spec_jump_phase(u: User) -> User {
    if u.jump_buffer_ticks > 0 {
        if u.coyote_ticks > 0 {
            spec_jump(u)
        } else {
            User { jump_buffer_ticks: (u.jump_buffer_ticks - 1) as u8, ..u }
        }
    } else {
        u
    }
}

/// One full integration step of a player: scan every other same-room
/// player, the room's platforms and doors, fall back to the walls on an
/// axis nothing hit, apply the per-axis responses, then gravity, run forces
/// and jump buffering. The room's statics are those of the room the player
/// was in when the tick began, even if a door moved the player.
/// The collisions one tick resolves for a player, with the drop-through
/// flag as the platform scan leaves it: the per-axis minima over the other
/// same-room players, the platforms and the doors, with the walls as the
/// fallback of an axis nothing hit.
pub open spec fn tick_collisions(u: User, users: Seq<Option<User>>, rooms: Seq<Room>) -> (
    Option<HorizontalCollision>,
    Option<VerticalCollision>,
    bool,
) {
    let room = rooms[u.room_idx as int];
    let de = u.dynamic_entity;
    let (h1, v1) = scan_users_rec(de, users, u.room_idx as int, 0, None, None);
    let (hd2, v2) = scan_platforms_rec(de, room.platforms@, 0, u.holding_down, v1);
    let (h3, v3) = scan_doors_rec(de, room.doors@, 0, h1, v2);
    let h = if h3 is None {
        spec_horizontal_bounds(de, room.bounds)
    } else {
        h3
    };
    let v = if v3 is None {
        spec_vertical_bounds(de, room.bounds)
    } else {
        v3
    };
    (h, v, hd2)
}

pub open spec fn tick_spec(u: User, users: Seq<Option<User>>, rooms: Seq<Room>) -> User {
    let room = rooms[u.room_idx as int];
    let de = u.dynamic_entity;
    let (h, v, hd2) = tick_collisions(u, users, rooms);
    let u0 = User { holding_down: hd2, ..u };
    let u1 = match h {
        None => spec_move_h(u0),
        Some(c) => spec_h_collision_response(u0, c, room.bounds, rooms),
    };
    let u2 = match v {
        None => spec_move_v(u1),
        Some(c) => spec_v_collision_response(u1, c, room.bounds),
    };
    let u3 = spec_fall(u2, room.gravity);
    let u4 = if u3.holding_left {
        spec_run_left(u3)
    } else {
        u3
    };
    let u5 = if u4.holding_right {
        spec_run_right(u4)
    } else {
        u4
    };
    spec_jump_phase(u5)
}

/// Integration never touches a player's identity or its target link: the
/// tick is pure motion, so ticking live players preserves the target chain.
pub proof fn lemma_tick_spec_links(u: User, users: Seq<Option<User>>, rooms: Seq<Room>)
    ensures
        tick_spec(u, users, rooms).target_user_idx == u.target_user_idx,
        tick_spec(u, users, rooms).idx == u.idx,
{
}

/// Bound growth of one tick: starting within `b` among slots within `b`,
/// every phase of the tick lands within `b` plus one tick's slack.
#[verifier::rlimit(100)]
#[verifier::spinoff_prover]
proof fn lemma_tick_bounded(
    u_in: User,
    users: Seq<Option<User>>,
    rooms: Seq<Room>,
    h: Option<HorizontalCollision>,
    v: Option<VerticalCollision>,
    u0: User,
    u1: User,
    u2: User,
    u3: User,
    u4: User,
    u5: User,
    b: int,
)
    requires
        u_in.wf(),
        u_in.room_idx < rooms.len(),
        crate::room::wf_rooms(rooms),
        match h {
            None => true,
            Some(c) => h_cand_ok(c, users, rooms[u_in.room_idx as int].doors@) || c.variant
                is Bounds,
        },
        match v {
            None => spec_vertical_bounds(u_in.dynamic_entity, rooms[u_in.room_idx as int].bounds)
                is None,
            Some(c) => v_cand_ok(
                c,
                users,
                rooms[u_in.room_idx as int].doors@,
                rooms[u_in.room_idx as int].platforms@,
            ) || c.variant is Bounds,
        },
        u0.dynamic_entity == u_in.dynamic_entity,
        u0.jump_buffer_ticks == u_in.jump_buffer_ticks,
        u1 == match h {
            None => spec_move_h(u0),
            Some(c) => spec_h_collision_response(u0, c, rooms[u_in.room_idx as int].bounds, rooms),
        },
        u2 == match v {
            None => spec_move_v(u1),
            Some(c) => spec_v_collision_response(u1, c, rooms[u_in.room_idx as int].bounds),
        },
        u3 == spec_fall(u2, rooms[u_in.room_idx as int].gravity),
        u4 == if u3.holding_left {
            spec_run_left(u3)
        } else {
            u3
        },
        u5 == if u4.holding_right {
            spec_run_right(u4)
        } else {
            u4
        },
        SIZE_LIMIT <= b,
        state_bounded(u_in, b),
        users_wf_bounded(users, b),
    ensures
        state_bounded(spec_jump_phase(u5), b + TICK_SLACK),
{
    let room = rooms[u_in.room_idx as int];
    let de = u_in.dynamic_entity;
    assert(room.wf(rooms.len() as int));
    // horizontal phase
    match h {
        None => {
            assert(-b - RUN_MAX_SPEED <= u1.dynamic_entity.entity.x <= b + RUN_MAX_SPEED);
        },
        Some(c) => {
            match c.variant {
                CollisionVariant::Bounds => {
                    assert(-b <= u1.dynamic_entity.entity.x <= b + TICK_SLACK);
                },
                CollisionVariant::User(e) => {
                    let k = choose|k: int|
                        0 <= k < users.len() && users[k] is Some && ((users[
                            k
                        ])->0).dynamic_entity.entity == e;
                    assert(state_bounded((users[k])->0, b));
                    assert(-b - 2 * SIZE_LIMIT <= u1.dynamic_entity.entity.x <= b + 2 * SIZE_LIMIT);
                },
                CollisionVariant::Platform(_) => {
                    assert(false);
                },
                CollisionVariant::Door(d) => {
                    let k = choose|k: int| 0 <= k < room.doors@.len() && room.doors@[k] == d;
                    assert(crate::room::entity_in_bounds(d.entity, room.bounds));
                    assert(d.room_idx < rooms.len());
                    let dest = rooms[d.room_idx as int].doors@[d.door_idx as int];
                    assert(rooms[d.room_idx as int].wf(rooms.len() as int));
                    assert(crate::room::entity_in_bounds(
                        dest.entity,
                        rooms[d.room_idx as int].bounds,
                    ));
                    assert(-2 * SIZE_LIMIT <= u1.dynamic_entity.entity.x <= 2 * SIZE_LIMIT);
                },
            }
        },
    }
    assert(u1.dynamic_entity.entity.y == u_in.dynamic_entity.entity.y);
    assert(u1.dynamic_entity.dy == u_in.dynamic_entity.dy);
    assert(u1.dynamic_entity.entity.width == USER_SIZE);
    assert(u1.dynamic_entity.entity.height == USER_SIZE);
    assert(u1.dynamic_entity.weight == USER_WEIGHT);
    // vertical phase
    match v {
        None => {
            if de.dy > 0 {
                assert(de.entity.y + de.dy <= room.bounds.y_max - de.entity.height);
                assert(-b <= u2.dynamic_entity.entity.y <= b + TICK_SLACK);
            } else if de.dy < 0 {
                assert(de.entity.y > -de.dy);
                assert(-b <= u2.dynamic_entity.entity.y <= b + TICK_SLACK);
            } else {
                assert(u2.dynamic_entity.entity.y == u1.dynamic_entity.entity.y);
            }
            assert(u2.dynamic_entity.dy == u_in.dynamic_entity.dy);
        },
        Some(c) => {
            match c.variant {
                CollisionVariant::Bounds => {
                    assert(-b <= u2.dynamic_entity.entity.y <= b + TICK_SLACK);
                },
                CollisionVariant::User(e) => {
                    let k = choose|k: int|
                        0 <= k < users.len() && users[k] is Some && ((users[
                            k
                        ])->0).dynamic_entity.entity == e;
                    assert(state_bounded((users[k])->0, b));
                    assert(-b - 2 * SIZE_LIMIT <= u2.dynamic_entity.entity.y <= b + 2 * SIZE_LIMIT);
                },
                CollisionVariant::Platform(e) => {
                    let k = choose|k: int|
                        0 <= k < room.platforms@.len() && room.platforms@[k] == e;
                    assert(crate::room::entity_in_bounds(e, room.bounds));
                    assert(-2 * SIZE_LIMIT <= u2.dynamic_entity.entity.y <= 2 * SIZE_LIMIT);
                },
                CollisionVariant::Door(d) => {
                    let k = choose|k: int| 0 <= k < room.doors@.len() && room.doors@[k] == d;
                    assert(crate::room::entity_in_bounds(d.entity, room.bounds));
                    assert(-2 * SIZE_LIMIT <= u2.dynamic_entity.entity.y <= 2 * SIZE_LIMIT);
                },
            }
            assert(u2.dynamic_entity.dy == 0 || -240 <= u2.dynamic_entity.dy <= 0);
        },
    }
    assert(u2.dynamic_entity.entity.x == u1.dynamic_entity.entity.x);
    assert(u2.dynamic_entity.weight == USER_WEIGHT);
    // gravity, run forces and jump buffering touch only dy and dx
    assert(0 <= room.gravity <= 0x1000);
    assert(-b - 0x1000 - 240 <= u3.dynamic_entity.dy <= b + 0x1000 + 240);
    assert(u5.dynamic_entity.dy == u3.dynamic_entity.dy);
    assert(u5.dynamic_entity.entity.y == u2.dynamic_entity.entity.y);
    assert(u5.dynamic_entity.entity.x == u2.dynamic_entity.entity.x);
    assert(u5.dynamic_entity.weight == USER_WEIGHT);
    let uf = spec_jump_phase(u5);
    assert(uf.dynamic_entity.entity.x == u5.dynamic_entity.entity.x);
    assert(uf.dynamic_entity.entity.y == u5.dynamic_entity.entity.y);
    assert(uf.dynamic_entity.dy == u5.dynamic_entity.dy || -240 <= uf.dynamic_entity.dy <= 0);
}

impl User {
    /// Integrate this player for one tick against the given slots (its own
    /// slot may hold its unchanged pre-tick copy: a mover never collides
    /// with its own rectangle) and the room table, exactly `tick_spec`.
    #[verifier::rlimit(100)]
    #[verifier::spinoff_prover]
    pub fn tick(&mut self, users: &Vec<Option<User>>, rooms: &Vec<Room>)
        requires
            old(self).wf(),
            old(self).room_idx < rooms@.len(),
            crate::room::wf_rooms(rooms@),
            state_bounded(*old(self), SCAN_LIMIT as int),
            users_wf_bounded(users@, SCAN_LIMIT as int),
        ensures
            *final(self) == tick_spec(*old(self), users@, rooms@),
            final(self).wf(),
            final(self).room_idx < rooms@.len(),
            forall|b: int|
                SIZE_LIMIT <= b && state_bounded(*old(self), b) && users_wf_bounded(users@, b)
                    ==> state_bounded(*final(self), b + TICK_SLACK),
    {
        let ghost u_in = *old(self);
        let room: &Room = &rooms[self.room_idx];
        let bounds: Bounds = room.bounds;
        let gravity: i64 = room.gravity;
        let de: DynamicEntity = self.dynamic_entity;
        proof {
            assert(de.wf());
            assert forall|i: int|
                0 <= i < users@.len() && users@[i] is Some implies ((#[trigger] users@[
                i
            ])->0).dynamic_entity.entity.wf() by {
                assert(((users@[i])->0).wf() && state_bounded((users@[i])->0, SCAN_LIMIT as int));
            }
            assert forall|i: int| 0 <= i < room.platforms@.len() implies (#[trigger] room.platforms@[
                i
            ]).wf() by {
                assert(crate::room::entity_in_bounds(room.platforms@[i], room.bounds));
            }
            assert forall|i: int| 0 <= i < room.doors@.len() implies ((#[trigger] room.doors@[
                i
            ]).entity).wf() by {
                assert(crate::room::entity_in_bounds(room.doors@[i].entity, room.bounds));
            }
        }
        let (h1, v1) = scan_users(&de, self.room_idx, users);
        let (hd2, v2) = scan_platforms(
            &de,
            &room.platforms,
            self.holding_down,
            v1,
            Ghost(users@),
            Ghost(room.doors@),
        );
        self.holding_down = hd2;
        let (h3, v3) = scan_doors(&de, &room.doors, h1, v2, Ghost(users@), Ghost(room.platforms@));
        let h: Option<HorizontalCollision> = match h3 {
            None => de.horizontal_bounds_collision(&bounds),
            Some(c) => Some(c),
        };
        let v: Option<VerticalCollision> = match v3 {
            None => de.vertical_bounds_collision(&bounds),
            Some(c) => Some(c),
        };
        let ghost u0 = User { holding_down: hd2, ..u_in };
        proof {
            assert(*self == u0);
        }
        match h {
            None => {
                self.dynamic_entity.entity.x = self.dynamic_entity.entity.x
                    + self.dynamic_entity.dx;
                if self.dynamic_entity.dx > 0 {
                    if !self.holding_right {
                        self.end_run_right();
                    }
                } else if self.dynamic_entity.dx < 0 {
                    if !self.holding_left {
                        self.end_run_left();
                    }
                }
            },
            Some(c) => {
                self.handle_horizontal_collision(c, &bounds, rooms);
            },
        }
        let ghost u1 = match h {
            None => spec_move_h(u0),
            Some(c) => spec_h_collision_response(u0, c, bounds, rooms@),
        };
        proof {
            assert(*self == u1);
        }
        match v {
            None => {
                self.dynamic_entity.entity.y = self.dynamic_entity.entity.y
                    + self.dynamic_entity.dy;
                if self.coyote_ticks > 0 {
                    self.coyote_ticks = self.coyote_ticks - 1;
                }
            },
            Some(c) => {
                self.handle_vertical_collision(c, &bounds);
            },
        }
        let ghost u2 = match v {
            None => spec_move_v(u1),
            Some(c) => spec_v_collision_response(u1, c, bounds),
        };
        proof {
            assert(*self == u2);
        }
        self.fall(gravity);
        let ghost u3 = spec_fall(u2, gravity);
        proof {
            assert(*self == u3);
        }
        if self.holding_left {
            self.run_left();
        }
        let ghost u4 = if u3.holding_left {
            spec_run_left(u3)
        } else {
            u3
        };
        proof {
            assert(*self == u4);
        }
        if self.holding_right {
            self.run_right();
        }
        let ghost u5 = if u4.holding_right {
            spec_run_right(u4)
        } else {
            u4
        };
        proof {
            assert(*self == u5);
        }
        if self.jump_buffer_ticks > 0 {
            if self.coyote_ticks > 0 {
                self.jump();
            } else {
                self.jump_buffer_ticks = self.jump_buffer_ticks - 1;
            }
        }
        proof {
            assert(*self == spec_jump_phase(u5));
            assert(*self == tick_spec(u_in, users@, rooms@));
            assert forall|b: int|
                SIZE_LIMIT <= b && state_bounded(u_in, b) && users_wf_bounded(users@, b) implies state_bounded(
                *self,
                b + TICK_SLACK,
            ) by {
                lemma_tick_bounded(u_in, users@, rooms@, h, v, u0, u1, u2, u3, u4, u5, b);
            }
        }
    }
}

impl User {
    /// Splice point for a joining player: a uniformly random live player
    /// hands its current target to the newcomer (the returned value) and
    /// targets the newcomer instead. With nobody live the newcomer is told
    /// to target slot zero and nothing changes.
    pub fn get_target_idx(users: &mut Vec<Option<User>>, new_user_idx: usize) -> (r: usize)
        ensures
            final(users)@.len() == old(users)@.len(),
            crate::chain::no_live(old(users)@) ==> r == 0 && final(users)@ == old(users)@,
            !crate::chain::no_live(old(users)@) ==> exists|k: int|
                crate::chain::splice_source(old(users)@, final(users)@, k, new_user_idx, r),
    {
        let ghost pre = users@;
        let mut live_idxs: Vec<usize> = Vec::new();
        let mut i: usize = 0;
        while i < users.len()
            invariant
                0 <= i <= users@.len(),
                users@ == pre,
                forall|t: int|
                    0 <= t < live_idxs@.len() ==> crate::chain::live(
                        users@,
                        #[trigger] live_idxs@[t] as int,
                    ),
                live_idxs@.len() == 0 ==> forall|j: int|
                    0 <= j < i ==> !crate::chain::live(users@, j),
            decreases users@.len() - i,
        {
            match users[i] {
                Some(_) => {
                    live_idxs.push(i);
                },
                None => {},
            }
            i = i + 1;
        }
        if live_idxs.len() == 0 {
            proof {
                assert forall|j: int| !crate::chain::live(users@, j) by {
                    if 0 <= j < users@.len() {
                        assert(!crate::chain::live(users@, j));
                    }
                }
            }
            return 0;
        }
        let pick_pos: usize = crate::rng::random_below(live_idxs.len());
        let pick: usize = live_idxs[pick_pos];
        proof {
            assert(crate::chain::live(users@, pick as int));
        }
        let u: User = match users[pick] {
            Some(u) => u,
            None => unreached(),
        };
        let t: usize = u.target_user_idx;
        users.set(pick, Some(User { target_user_idx: new_user_idx, ..u }));
        proof {
            assert(crate::chain::splice_source(pre, users@, pick as int, new_user_idx, t));
            assert(!crate::chain::no_live(pre));
        }
        t
    }
}

/// Minimality of the player scan: the fold only ever lowers each axis's
/// time, and its result is no later than any same-room player's candidate
/// on that axis among the slots it visited.
#[verifier::rlimit(100)]
#[verifier::spinoff_prover]
pub proof fn lemma_scan_users_min(
    de: DynamicEntity,
    users: Seq<Option<User>>,
    ri: int,
    i: int,
    h: Option<HorizontalCollision>,
    v: Option<VerticalCollision>,
)
    requires
        0 <= i,
        de.wf(),
        forall|j: int|
            0 <= j < users.len() && users[j] is Some ==> ((#[trigger] users[
                j
            ])->0).dynamic_entity.entity.wf(),
        h matches Some(c) ==> c.time.wf(),
        v matches Some(c) ==> c.time.wf(),
    ensures
        ({
            let r = scan_users_rec(de, users, ri, i, h, v);
            &&& xt_le(h_time_of(r.0), h_time_of(h))
            &&& xt_le(v_time_of(r.1), v_time_of(v))
            &&& (r.0 matches Some(c) ==> c.time.wf())
            &&& (r.1 matches Some(c) ==> c.time.wf())
            &&& forall|k: int|
                0 <= k && i <= k < users.len() && users[k] is Some && ((#[trigger] users[
                    k
                ])->0).room_idx as int == ri && spec_swept(de, ((users[k])->0).dynamic_entity.entity).1
                    is Some ==> xt_le(
                    h_time_of(r.0),
                    spec_swept(de, ((users[k])->0).dynamic_entity.entity).0,
                )
            &&& forall|k: int|
                0 <= k && i <= k < users.len() && users[k] is Some && ((#[trigger] users[
                    k
                ])->0).room_idx as int == ri && spec_swept(de, ((users[k])->0).dynamic_entity.entity).2
                    is Some ==> xt_le(
                    v_time_of(r.1),
                    spec_swept(de, ((users[k])->0).dynamic_entity.entity).0,
                )
        }),
    decreases users.len() - i,
{
    if i < 0 || i >= users.len() {
    } else {
        let (h2, v2) = match users[i] {
            None => (h, v),
            Some(u) => scan_user_step(de, u, ri, h, v),
        };
        match users[i] {
            None => {},
            Some(u) => {
                if u.room_idx as int == ri {
                    lemma_swept_time_wf(de, u.dynamic_entity.entity);
                }
            },
        }
        assert(h2 matches Some(c) ==> c.time.wf());
        assert(v2 matches Some(c) ==> c.time.wf());
        assert(xt_le(h_time_of(h2), h_time_of(h)));
        assert(xt_le(v_time_of(v2), v_time_of(v)));
        lemma_scan_users_min(de, users, ri, i + 1, h2, v2);
        let r = scan_users_rec(de, users, ri, i, h, v);
        assert(r == scan_users_rec(de, users, ri, i + 1, h2, v2));
        lemma_xt_le_trans(h_time_of(r.0), h_time_of(h2), h_time_of(h));
        lemma_xt_le_trans(v_time_of(r.1), v_time_of(v2), v_time_of(v));
        assert forall|k: int|
            0 <= k && i <= k < users.len() && users[k] is Some && ((#[trigger] users[k])->0).room_idx as int
                == ri && spec_swept(de, ((users[k])->0).dynamic_entity.entity).1
                is Some implies xt_le(
            h_time_of(r.0),
            spec_swept(de, ((users[k])->0).dynamic_entity.entity).0,
        ) by {
            if k == i {
                let u = (users[i])->0;
                let t = spec_swept(de, u.dynamic_entity.entity).0;
                lemma_swept_time_wf(de, u.dynamic_entity.entity);
                assert(xt_le(h_time_of(h2), t));
                lemma_xt_le_trans(h_time_of(r.0), h_time_of(h2), t);
            }
        }
        assert forall|k: int|
            0 <= k && i <= k < users.len() && users[k] is Some && ((#[trigger] users[k])->0).room_idx as int
                == ri && spec_swept(de, ((users[k])->0).dynamic_entity.entity).2
                is Some implies xt_le(
            v_time_of(r.1),
            spec_swept(de, ((users[k])->0).dynamic_entity.entity).0,
        ) by {
            if k == i {
                let u = (users[i])->0;
                let t = spec_swept(de, u.dynamic_entity.entity).0;
                lemma_swept_time_wf(de, u.dynamic_entity.entity);
                assert(xt_le(v_time_of(v2), t));
                lemma_xt_le_trans(v_time_of(r.1), v_time_of(v2), t);
            }
        }
    }
}

/// Minimality of the door scan, in the same sense.
#[verifier::rlimit(100)]
#[verifier::spinoff_prover]
pub proof fn lemma_scan_doors_min(
    de: DynamicEntity,
    doors: Seq<crate::room::Door>,
    i: int,
    h: Option<HorizontalCollision>,
    v: Option<VerticalCollision>,
)
    requires
        0 <= i,
        de.wf(),
        forall|j: int| 0 <= j < doors.len() ==> ((#[trigger] doors[j]).entity).wf(),
        h matches Some(c) ==> c.time.wf(),
        v matches Some(c) ==> c.time.wf(),
    ensures
        ({
            let r = scan_doors_rec(de, doors, i, h, v);
            &&& xt_le(h_time_of(r.0), h_time_of(h))
            &&& xt_le(v_time_of(r.1), v_time_of(v))
            &&& (r.0 matches Some(c) ==> c.time.wf())
            &&& (r.1 matches Some(c) ==> c.time.wf())
            &&& forall|k: int|
                0 <= k && i <= k < doors.len() && spec_swept(de, (#[trigger] doors[k]).entity).1 is Some
                    ==> xt_le(h_time_of(r.0), spec_swept(de, doors[k].entity).0)
            &&& forall|k: int|
                0 <= k && i <= k < doors.len() && spec_swept(de, (#[trigger] doors[k]).entity).2 is Some
                    ==> xt_le(v_time_of(r.1), spec_swept(de, doors[k].entity).0)
        }),
    decreases doors.len() - i,
{
    if i < 0 || i >= doors.len() {
    } else {
        let (h2, v2) = scan_door_step(de, doors[i], h, v);
        lemma_swept_time_wf(de, doors[i].entity);
        assert(xt_le(h_time_of(h2), h_time_of(h)));
        assert(xt_le(v_time_of(v2), v_time_of(v)));
        lemma_scan_doors_min(de, doors, i + 1, h2, v2);
        let r = scan_doors_rec(de, doors, i, h, v);
        lemma_xt_le_trans(h_time_of(r.0), h_time_of(h2), h_time_of(h));
        lemma_xt_le_trans(v_time_of(r.1), v_time_of(v2), v_time_of(v));
        assert forall|k: int|
            0 <= k && i <= k < doors.len() && spec_swept(de, (#[trigger] doors[k]).entity).1
                is Some implies xt_le(h_time_of(r.0), spec_swept(de, doors[k].entity).0) by {
            if k == i {
                let t = spec_swept(de, doors[i].entity).0;
                assert(xt_le(h_time_of(h2), t));
                lemma_xt_le_trans(h_time_of(r.0), h_time_of(h2), t);
            }
        }
        assert forall|k: int|
            0 <= k && i <= k < doors.len() && spec_swept(de, (#[trigger] doors[k]).entity).2
                is Some implies xt_le(v_time_of(r.1), spec_swept(de, doors[k].entity).0) by {
            if k == i {
                let t = spec_swept(de, doors[i].entity).0;
                assert(xt_le(v_time_of(v2), t));
                lemma_xt_le_trans(v_time_of(r.1), v_time_of(v2), t);
            }
        }
    }
}

/// Minimality of the platform scan when no drop-through is pending: only a
/// downward mover collects platform candidates, and the fold keeps the
/// least of them.
#[verifier::rlimit(100)]
#[verifier::spinoff_prover]
pub proof fn lemma_scan_platforms_min(
    de: DynamicEntity,
    platforms: Seq<Entity>,
    i: int,
    v: Option<VerticalCollision>,
)
    requires
        0 <= i,
        de.wf(),
        forall|j: int| 0 <= j < platforms.len() ==> (#[trigger] platforms[j]).wf(),
        v matches Some(c) ==> c.time.wf(),
    ensures
        ({
            let r = scan_platforms_rec(de, platforms, i, false, v);
            &&& r.0 == false
            &&& xt_le(v_time_of(r.1), v_time_of(v))
            &&& (r.1 matches Some(c) ==> c.time.wf())
            &&& forall|k: int|
                0 <= k && i <= k < platforms.len() && de.dy > 0 && spec_swept(
                    de,
                    #[trigger] platforms[k],
                ).2
                    is Some ==> xt_le(v_time_of(r.1), spec_swept(de, platforms[k]).0)
        }),
    decreases platforms.len() - i,
{
    if i < 0 || i >= platforms.len() {
    } else {
        let (hd2, v2) = scan_platform_step(de, platforms[i], false, v);
        lemma_swept_time_wf(de, platforms[i]);
        assert(hd2 == false);
        assert(xt_le(v_time_of(v2), v_time_of(v)));
        lemma_scan_platforms_min(de, platforms, i + 1, v2);
        let r = scan_platforms_rec(de, platforms, i, false, v);
        lemma_xt_le_trans(v_time_of(r.1), v_time_of(v2), v_time_of(v));
        assert forall|k: int|
            0 <= k && i <= k < platforms.len() && de.dy > 0 && spec_swept(
                de,
                #[trigger] platforms[k],
            ).2
                is Some implies xt_le(v_time_of(r.1), spec_swept(de, platforms[k]).0) by {
            if k == i {
                let t = spec_swept(de, platforms[i]).0;
                assert(xt_le(v_time_of(v2), t));
                lemma_xt_le_trans(v_time_of(r.1), v_time_of(v2), t);
            }
        }
    }
}

/// The per-axis tie-break law of one tick: each axis keeps at most one
/// collision (a single optional slot), and the one it keeps has the least
/// entry time among that axis's candidates — every other same-room player
/// and every door of the room; and every platform too, for a downward
/// mover with no drop-through pending. A vacant axis means it had no
/// candidate at all.
#[verifier::rlimit(100)]
#[verifier::spinoff_prover]
pub proof fn lemma_tick_axis_minimality(u: User, users: Seq<Option<User>>, rooms: Seq<Room>)
    requires
        u.wf(),
        state_bounded(u, SCAN_LIMIT as int),
        u.room_idx < rooms.len(),
        crate::room::wf_rooms(rooms),
        forall|j: int|
            0 <= j < users.len() && users[j] is Some ==> ((#[trigger] users[
                j
            ])->0).dynamic_entity.entity.wf(),
    ensures
        ({
            let room = rooms[u.room_idx as int];
            let de = u.dynamic_entity;
            let (h1, v1) = scan_users_rec(de, users, u.room_idx as int, 0, None, None);
            let (hd2, v2) = scan_platforms_rec(de, room.platforms@, 0, u.holding_down, v1);
            let (h3, v3) = scan_doors_rec(de, room.doors@, 0, h1, v2);
            &&& forall|k: int|
                0 <= k < users.len() && users[k] is Some && ((#[trigger] users[
                    k
                ])->0).room_idx == u.room_idx && spec_swept(
                    de,
                    ((users[k])->0).dynamic_entity.entity,
                ).1 is Some ==> xt_le(
                    h_time_of(h3),
                    spec_swept(de, ((users[k])->0).dynamic_entity.entity).0,
                )
            &&& forall|k: int|
                0 <= k < users.len() && users[k] is Some && ((#[trigger] users[
                    k
                ])->0).room_idx == u.room_idx && spec_swept(
                    de,
                    ((users[k])->0).dynamic_entity.entity,
                ).2 is Some ==> xt_le(
                    v_time_of(v3),
                    spec_swept(de, ((users[k])->0).dynamic_entity.entity).0,
                )
            &&& forall|k: int|
                0 <= k < room.doors@.len() && spec_swept(de, (#[trigger] room.doors@[k]).entity).1
                    is Some ==> xt_le(h_time_of(h3), spec_swept(de, room.doors@[k].entity).0)
            &&& forall|k: int|
                0 <= k < room.doors@.len() && spec_swept(de, (#[trigger] room.doors@[k]).entity).2
                    is Some ==> xt_le(v_time_of(v3), spec_swept(de, room.doors@[k].entity).0)
            &&& !u.holding_down ==> forall|k: int|
                0 <= k < room.platforms@.len() && de.dy > 0 && spec_swept(
                    de,
                    #[trigger] room.platforms@[k],
                ).2 is Some ==> xt_le(v_time_of(v3), spec_swept(de, room.platforms@[k]).0)
        }),
{
    let room = rooms[u.room_idx as int];
    let de = u.dynamic_entity;
    assert(de.wf());
    assert(room.wf(rooms.len() as int));
    assert forall|j: int| 0 <= j < room.platforms@.len() implies (#[trigger] room.platforms@[
        j
    ]).wf() by {
        assert(crate::room::entity_in_bounds(room.platforms@[j], room.bounds));
    }
    assert forall|j: int| 0 <= j < room.doors@.len() implies ((#[trigger] room.doors@[
        j
    ]).entity).wf() by {
        assert(crate::room::entity_in_bounds(room.doors@[j].entity, room.bounds));
    }
    let (h1, v1) = scan_users_rec(de, users, u.room_idx as int, 0, None, None);
    lemma_scan_users_min(de, users, u.room_idx as int, 0, None, None);
    let (hd2, v2) = scan_platforms_rec(de, room.platforms@, 0, u.holding_down, v1);
    let (h3, v3) = scan_doors_rec(de, room.doors@, 0, h1, v2);
    if u.holding_down {
        lemma_scan_platforms_wf(de, room.platforms@, 0, u.holding_down, v1);
    } else {
        lemma_scan_platforms_min(de, room.platforms@, 0, v1);
    }
    lemma_scan_doors_min(de, room.doors@, 0, h1, v2);
    assert forall|k: int|
        0 <= k < users.len() && users[k] is Some && ((#[trigger] users[k])->0).room_idx
            == u.room_idx && spec_swept(de, ((users[k])->0).dynamic_entity.entity).1
            is Some implies xt_le(
        h_time_of(h3),
        spec_swept(de, ((users[k])->0).dynamic_entity.entity).0,
    ) by {
        let t = spec_swept(de, ((users[k])->0).dynamic_entity.entity).0;
        lemma_swept_time_wf(de, ((users[k])->0).dynamic_entity.entity);
        lemma_xt_le_trans(h_time_of(h3), h_time_of(h1), t);
    }
    assert forall|k: int|
        0 <= k < users.len() && users[k] is Some && ((#[trigger] users[k])->0).room_idx
            == u.room_idx && spec_swept(de, ((users[k])->0).dynamic_entity.entity).2
            is Some implies xt_le(
        v_time_of(v3),
        spec_swept(de, ((users[k])->0).dynamic_entity.entity).0,
    ) by {
        let t = spec_swept(de, ((users[k])->0).dynamic_entity.entity).0;
        lemma_swept_time_wf(de, ((users[k])->0).dynamic_entity.entity);
        lemma_xt_le_trans(v_time_of(v2), v_time_of(v1), t);
        lemma_xt_le_trans(v_time_of(v3), v_time_of(v2), t);
    }
    if !u.holding_down {
        assert forall|k: int|
            0 <= k < room.platforms@.len() && de.dy > 0 && spec_swept(
                de,
                #[trigger] room.platforms@[k],
            ).2 is Some implies xt_le(v_time_of(v3), spec_swept(de, room.platforms@[k]).0) by {
            let t = spec_swept(de, room.platforms@[k]).0;
            lemma_swept_time_wf(de, room.platforms@[k]);
            lemma_xt_le_trans(v_time_of(v3), v_time_of(v2), t);
        }
    }
}

/// Whether any platform from `i` on yields a downward candidate for the
/// mover.
pub open spec fn has_platform_candidate(de: DynamicEntity, platforms: Seq<Entity>, i: int) -> bool {
    exists|k: int|
        0 <= k && i <= k < platforms.len() && de.dy > 0 && spec_swept(
            de,
            #[trigger] platforms[k],
        ).2 is Some
}

/// One-way drop-through: a pending request is consumed by the platform
/// scan exactly when some platform yields a downward candidate, and with no
/// request pending such a candidate always leaves a vertical collision
/// registered — so the next approach, with the flag no longer set, does
/// collide.
#[verifier::rlimit(100)]
#[verifier::spinoff_prover]
pub proof fn lemma_drop_through(
    de: DynamicEntity,
    platforms: Seq<Entity>,
    i: int,
    v: Option<VerticalCollision>,
)
    requires
        0 <= i,
        de.wf(),
        forall|j: int| 0 <= j < platforms.len() ==> (#[trigger] platforms[j]).wf(),
        v matches Some(c) ==> c.time.wf(),
    ensures
        scan_platforms_rec(de, platforms, i, true, v).0 == !has_platform_candidate(
            de,
            platforms,
            i,
        ),
        !has_platform_candidate(de, platforms, i) ==> scan_platforms_rec(de, platforms, i, true, v)
            == (true, v),
        has_platform_candidate(de, platforms, i) ==> scan_platforms_rec(de, platforms, i, false, v).1
            is Some,
    decreases platforms.len() - i,
{
    if i >= platforms.len() {
        assert(!has_platform_candidate(de, platforms, i));
    } else {
        lemma_swept_time_wf(de, platforms[i]);
        let (t, hd, vd) = spec_swept(de, platforms[i]);
        lemma_drop_through(de, platforms, i + 1, v);
        if de.dy > 0 && vd is Some {
            assert(has_platform_candidate(de, platforms, i));
            // with the flag set, this first candidate consumes it
            assert(scan_platforms_rec(de, platforms, i, true, v) == scan_platforms_rec(
                de,
                platforms,
                i + 1,
                false,
                v,
            ));
            lemma_scan_platforms_drops_flag(de, platforms, i + 1, v);
            // with the flag clear, a candidate is always registered
            let v2 = scan_platform_step(de, platforms[i], false, v).1;
            assert(v2 is Some);
            assert(v2 matches Some(c) ==> c.time.wf());
            lemma_scan_platforms_keeps_some(de, platforms, i + 1, v2);
        } else {
            assert(has_platform_candidate(de, platforms, i) == has_platform_candidate(
                de,
                platforms,
                i + 1,
            )) by {
                if has_platform_candidate(de, platforms, i) {
                    let k = choose|k: int|
                        0 <= k && i <= k < platforms.len() && de.dy > 0 && spec_swept(
                            de,
                            #[trigger] platforms[k],
                        ).2 is Some;
                    assert(k != i);
                }
            }
            if has_platform_candidate(de, platforms, i) {
                lemma_scan_platforms_drops_flag(de, platforms, i, v);
            }
        }
    }
}

/// A cleared drop-through flag stays cleared down the fold.
proof fn lemma_scan_platforms_drops_flag(
    de: DynamicEntity,
    platforms: Seq<Entity>,
    i: int,
    v: Option<VerticalCollision>,
)
    ensures
        scan_platforms_rec(de, platforms, i, false, v).0 == false,
    decreases platforms.len() - i,
{
    if i < 0 || i >= platforms.len() {
    } else {
        let (hd2, v2) = scan_platform_step(de, platforms[i], false, v);
        lemma_scan_platforms_drops_flag(de, platforms, i + 1, v2);
    }
}

/// A registered vertical collision never un-registers down the fold.
proof fn lemma_scan_platforms_keeps_some(
    de: DynamicEntity,
    platforms: Seq<Entity>,
    i: int,
    v: Option<VerticalCollision>,
)
    requires
        v is Some,
    ensures
        scan_platforms_rec(de, platforms, i, false, v).1 is Some,
    decreases platforms.len() - i,
{
    if i < 0 || i >= platforms.len() {
    } else {
        let (hd2, v2) = scan_platform_step(de, platforms[i], false, v);
        lemma_scan_platforms_keeps_some(de, platforms, i + 1, v2);
    }
}

/// Jump buffering, one tick at a time: landing with a pending request
/// fires the jump at once and clears both grace counters; an airborne tick
/// outside the coyote window burns exactly one tick of the request; an
/// airborne tick inside the window fires the jump too. A request issued up
/// to `JUMP_BUFFER_TICKS` ticks before landing therefore still executes on
/// landing, and one issued a tick earlier than that window has expired.
#[verifier::rlimit(100)]
#[verifier::spinoff_prover]
pub proof fn lemma_jump_buffering(u: User, users: Seq<Option<User>>, rooms: Seq<Room>)
    requires
        u.wf(),
        u.room_idx < rooms.len(),
        crate::room::wf_rooms(rooms),
    ensures
        ({
            let (h, v, hd2) = tick_collisions(u, users, rooms);
            let r = tick_spec(u, users, rooms);
            &&& (v matches Some(c) && c.direction is Down && u.jump_buffer_ticks > 0) ==> {
                &&& r.jump_buffer_ticks == 0
                &&& r.coyote_ticks == 0
                &&& r.dynamic_entity.dy == div_trunc(JUMP_FORCE as int, USER_WEIGHT as int)
                    + rooms[u.room_idx as int].gravity
            }
            &&& (v is None && u.coyote_ticks <= 1 && u.jump_buffer_ticks > 0)
                ==> r.jump_buffer_ticks == u.jump_buffer_ticks - 1
            &&& (v is None && u.coyote_ticks > 1 && u.jump_buffer_ticks > 0) ==> {
                &&& r.jump_buffer_ticks == 0
                &&& r.dynamic_entity.dy == div_trunc(JUMP_FORCE as int, USER_WEIGHT as int)
            }
        }),
{
    let (h, v, hd2) = tick_collisions(u, users, rooms);
    let r = tick_spec(u, users, rooms);
    let room = rooms[u.room_idx as int];
    assert(room.wf(rooms.len() as int));
    let u0 = User { holding_down: hd2, ..u };
    let u1 = match h {
        None => spec_move_h(u0),
        Some(c) => spec_h_collision_response(u0, c, room.bounds, rooms),
    };
    assert(u1.jump_buffer_ticks == u.jump_buffer_ticks);
    assert(u1.coyote_ticks == u.coyote_ticks);
    assert(u1.dynamic_entity.weight == USER_WEIGHT);
    let u2 = match v {
        None => spec_move_v(u1),
        Some(c) => spec_v_collision_response(u1, c, room.bounds),
    };
    let u3 = spec_fall(u2, room.gravity);
    let u4 = if u3.holding_left {
        spec_run_left(u3)
    } else {
        u3
    };
    let u5 = if u4.holding_right {
        spec_run_right(u4)
    } else {
        u4
    };
    assert(r == spec_jump_phase(u5));
    assert(u4.jump_buffer_ticks == u3.jump_buffer_ticks && u4.coyote_ticks == u3.coyote_ticks
        && u4.dynamic_entity.dy == u3.dynamic_entity.dy);
    assert(u5.jump_buffer_ticks == u3.jump_buffer_ticks && u5.coyote_ticks == u3.coyote_ticks
        && u5.dynamic_entity.dy == u3.dynamic_entity.dy);
    assert(div_trunc(JUMP_FORCE as int, USER_WEIGHT as int) == -80);
    if v matches Some(c) && c.direction is Down && u.jump_buffer_ticks > 0 {
        assert(u2 == spec_jump(
            User {
                dynamic_entity: DynamicEntity {
                    entity: Entity {
                        y: u2.dynamic_entity.entity.y,
                        ..u1.dynamic_entity.entity
                    },
                    dy: 0,
                    ..u1.dynamic_entity
                },
                ..u1
            },
        ));
        assert(u2.jump_buffer_ticks == 0 && u2.coyote_ticks == 0);
        assert(u2.dynamic_entity.dy == -80);
        assert(u3.dynamic_entity.dy == -80 + room.gravity);
        assert(u5.jump_buffer_ticks == 0);
        assert(r == u5);
    } else if v is None && u.jump_buffer_ticks > 0 {
        assert(u2.jump_buffer_ticks == u.jump_buffer_ticks);
        if u.coyote_ticks <= 1 {
            assert(u2.coyote_ticks == 0);
            assert(u5.coyote_ticks == 0);
            assert(r.jump_buffer_ticks == u.jump_buffer_ticks - 1);
        } else {
            assert(u2.coyote_ticks == u.coyote_ticks - 1);
            assert(u5.coyote_ticks > 0);
            assert(r == spec_jump(u5));
            assert(r.dynamic_entity.dy == -80);
        }
    }
}

/// Landing on an obstacle below: the player is snapped onto its top (`y`
/// becomes the obstacle's top minus the player's height — stated here for a
/// platform), its fall is arrested so only this tick's gravity remains, and
/// with no jump request pending the coyote window opens in full.
#[verifier::rlimit(100)]
#[verifier::spinoff_prover]
pub proof fn lemma_platform_landing(u: User, users: Seq<Option<User>>, rooms: Seq<Room>)
    requires
        u.wf(),
        u.room_idx < rooms.len(),
        crate::room::wf_rooms(rooms),
    ensures
        ({
            let (h, v, hd2) = tick_collisions(u, users, rooms);
            let r = tick_spec(u, users, rooms);
            (v is Some && (v->0).direction is Down && (v->0).variant is Platform) ==> {
                &&& r.dynamic_entity.entity.y == (((v->0).variant->Platform_0).y
                    - u.dynamic_entity.entity.height) as i64
                &&& ((v->0).variant->Platform_0).wf() ==> r.dynamic_entity.entity.y == ((
                v->0).variant->Platform_0).y - u.dynamic_entity.entity.height
                &&& u.jump_buffer_ticks == 0 ==> {
                    &&& r.dynamic_entity.dy == rooms[u.room_idx as int].gravity
                    &&& r.coyote_ticks == COYOTE_TICKS
                }
            }
        }),
{
    let (h, v, hd2) = tick_collisions(u, users, rooms);
    let r = tick_spec(u, users, rooms);
    let room = rooms[u.room_idx as int];
    assert(room.wf(rooms.len() as int));
    let u0 = User { holding_down: hd2, ..u };
    let u1 = match h {
        None => spec_move_h(u0),
        Some(c) => spec_h_collision_response(u0, c, room.bounds, rooms),
    };
    assert(u1.dynamic_entity.entity.height == u.dynamic_entity.entity.height);
    assert(u1.dynamic_entity.entity.y == u.dynamic_entity.entity.y);
    assert(u1.jump_buffer_ticks == u.jump_buffer_ticks);
    match v {
        None => {},
        Some(c) => {
            match c.variant {
                CollisionVariant::Platform(p) => {
                    if c.direction is Down {
                        let u2 = spec_v_collision_response(u1, c, room.bounds);
                        let u3 = spec_fall(u2, room.gravity);
                        let u4 = if u3.holding_left {
                            spec_run_left(u3)
                        } else {
                            u3
                        };
                        let u5 = if u4.holding_right {
                            spec_run_right(u4)
                        } else {
                            u4
                        };
                        assert(r == spec_jump_phase(u5));
                        assert(u2.dynamic_entity.entity.y == (p.y
                            - u.dynamic_entity.entity.height) as i64);
                        assert(u5.dynamic_entity.entity.y == u2.dynamic_entity.entity.y);
                        assert(r.dynamic_entity.entity.y == u5.dynamic_entity.entity.y);
                        if u.jump_buffer_ticks == 0 {
                            assert(u2.dynamic_entity.dy == 0);
                            assert(u2.coyote_ticks == COYOTE_TICKS);
                            assert(u3.dynamic_entity.dy == room.gravity);
                            assert(u5.dynamic_entity.dy == u3.dynamic_entity.dy);
                            assert(u5.coyote_ticks == COYOTE_TICKS);
                            assert(u5.jump_buffer_ticks == 0);
                            assert(r == u5);
                        }
                    }
                },
                _ => {},
            }
        },
    }
}

/// Run acceleration under the right key alone, from a standstill or a
/// rightward run: with no horizontal obstacle the tick adds the fixed
/// per-tick increment to `dx` and caps exactly at the maximum running
/// speed; whatever was hit, the speed never ends above the cap.
#[verifier::rlimit(100)]
#[verifier::spinoff_prover]
pub proof fn lemma_run_acceleration(u: User, users: Seq<Option<User>>, rooms: Seq<Room>)
    requires
        u.wf(),
        u.room_idx < rooms.len(),
        crate::room::wf_rooms(rooms),
        u.holding_right,
        !u.holding_left,
        0 <= u.dynamic_entity.dx,
    ensures
        ({
            let (h, v, hd2) = tick_collisions(u, users, rooms);
            let r = tick_spec(u, users, rooms);
            &&& r.dynamic_entity.dx <= RUN_MAX_SPEED
            &&& h is None ==> ({
                let rs = u.dynamic_entity.dx + RUN_START_FORCE as int / USER_WEIGHT as int;
                r.dynamic_entity.dx == if rs < RUN_MAX_SPEED {
                    rs as i64
                } else {
                    RUN_MAX_SPEED
                }
            })
        }),
{
    let (h, v, hd2) = tick_collisions(u, users, rooms);
    let r = tick_spec(u, users, rooms);
    let room = rooms[u.room_idx as int];
    assert(room.wf(rooms.len() as int));
    let u0 = User { holding_down: hd2, ..u };
    let u1 = match h {
        None => spec_move_h(u0),
        Some(c) => spec_h_collision_response(u0, c, room.bounds, rooms),
    };
    assert(h is None ==> u1.dynamic_entity.dx == u.dynamic_entity.dx);
    assert(u1.dynamic_entity.dx <= RUN_MAX_SPEED);
    assert(u1.holding_right && !u1.holding_left);
    assert(u1.dynamic_entity.weight == USER_WEIGHT);
    let u2 = match v {
        None => spec_move_v(u1),
        Some(c) => spec_v_collision_response(u1, c, room.bounds),
    };
    let u3 = spec_fall(u2, room.gravity);
    assert(u3.dynamic_entity.dx == u1.dynamic_entity.dx);
    assert(!u3.holding_left);
    let u4 = u3;
    let u5 = spec_run_right(u4);
    assert(r == spec_jump_phase(u5));
    assert(r.dynamic_entity.dx == u5.dynamic_entity.dx);
}
pub proof fn lemma_scan_platforms_wf(
    de: DynamicEntity,
    platforms: Seq<Entity>,
    i: int,
    holding_down: bool,
    v: Option<VerticalCollision>,
)
    requires
        de.wf(),
        forall|j: int| 0 <= j < platforms.len() ==> (#[trigger] platforms[j]).wf(),
        v matches Some(c) ==> c.time.wf(),
    ensures
        ({
            let r = scan_platforms_rec(de, platforms, i, holding_down, v);
            &&& xt_le(v_time_of(r.1), v_time_of(v))
            &&& (r.1 matches Some(c) ==> c.time.wf())
        }),
    decreases platforms.len() - i,
{
    if i < 0 || i >= platforms.len() {
    } else {
        let (hd2, v2) = scan_platform_step(de, platforms[i], holding_down, v);
        lemma_swept_time_wf(de, platforms[i]);
        assert(xt_le(v_time_of(v2), v_time_of(v)));
        lemma_scan_platforms_wf(de, platforms, i + 1, hd2, v2);
        let r = scan_platforms_rec(de, platforms, i, holding_down, v);
        lemma_xt_le_trans(v_time_of(r.1), v_time_of(v2), v_time_of(v));
    }
}

} // verus!
