use vstd::prelude::*;
use crate::frac::{Frac, XTime, xt_lt, FRAC_LIMIT};
use crate::room;

verus! {

/// Number of integer sub-units per world unit. Geometry is carried in
/// sub-units so that the per-tick forces (which divide by a player's weight)
/// and the gravity of the rooms are whole numbers.
pub const COORD_SCALE: i64 = 6;

/// Magnitude cap on positions accepted by the collision engine.
pub const POS_LIMIT: i64 = 0x400_0000;

/// Magnitude cap on rectangle extents accepted by the collision engine.
pub const SIZE_LIMIT: i64 = 0x1_0000;

/// Magnitude cap on per-tick velocities accepted by the collision engine.
pub const VEL_LIMIT: i64 = 0x400_0000;

/// An axis-aligned rectangle: any occupied region (player, platform, door).
#[derive(Clone, Copy, Debug, PartialEq, Eq, Structural)]
pub struct Entity {
    pub x: i64,
    pub y: i64,
    pub width: i64,
    pub height: i64,
}

/// A rectangle with a per-tick velocity and an inverse-mass-like weight that
/// dampens force application.
#[derive(Clone, Copy, Debug, PartialEq, Eq, Structural)]
pub struct DynamicEntity {
    pub entity: Entity,
    pub dx: i64,
    pub dy: i64,
    pub weight: i64,
}

#[derive(Clone, Copy, Debug, PartialEq, Eq, Structural)]
pub enum HorizontalCollisionDirection {
    Left,
    Right,
}

#[derive(Clone, Copy, Debug, PartialEq, Eq, Structural)]
pub enum VerticalCollisionDirection {
    Up,
    Down,
}

/// What a collision candidate was: the room walls, another player's
/// rectangle, a platform, or a portal door.
#[derive(Clone, Copy, Debug, PartialEq, Eq, Structural)]
pub enum CollisionVariant {
    Bounds,
    User(Entity),
    Platform(Entity),
    Door(room::Door),
}

/// A time of impact extended with the two infinities, as the slab test
/// yields them: `PlusInfinity` stands for "never this tick" and
/// `MinusInfinity` for "already overlapping on a still axis".
#[derive(Clone, Copy, Debug)]
pub enum SweptTime {
    MinusInfinity,
    Finite(Frac),
    PlusInfinity,
}

impl SweptTime {
    pub open spec fn wf(self) -> bool {
        match self {
            SweptTime::Finite(f) => f.wf(),
            _ => true,
        }
    }

    pub open spec fn view(self) -> XTime {
        match self {
            SweptTime::MinusInfinity => XTime::MInf,
            SweptTime::Finite(f) => f@,
            SweptTime::PlusInfinity => XTime::PInf,
        }
    }
}

#[derive(Clone, Copy, Debug)]
pub struct HorizontalCollision {
    pub variant: CollisionVariant,
    pub direction: HorizontalCollisionDirection,
    pub time: SweptTime,
}

#[derive(Clone, Copy, Debug)]
pub struct VerticalCollision {
    pub variant: CollisionVariant,
    pub direction: VerticalCollisionDirection,
    pub time: SweptTime,
}

impl Entity {
    pub open spec fn wf(self) -> bool {
        &&& -POS_LIMIT <= self.x <= POS_LIMIT
        &&& -POS_LIMIT <= self.y <= POS_LIMIT
        &&& 0 <= self.width <= SIZE_LIMIT
        &&& 0 <= self.height <= SIZE_LIMIT
    }
}

impl DynamicEntity {
    pub open spec fn wf(self) -> bool {
        &&& self.entity.wf()
        &&& -VEL_LIMIT <= self.dx <= VEL_LIMIT
        &&& -VEL_LIMIT <= self.dy <= VEL_LIMIT
        &&& 1 <= self.weight
    }
}

/// One-dimensional open overlap of `[p, p+s]` and `[op, op+os]`.
pub open spec fn axis_overlap(p: int, s: int, op: int, os: int) -> bool {
    p < op + os && op < p + s
}

/// Signed distance from the mover's leading edge to the near edge of the
/// obstacle, along the direction of motion (`v != 0`).
pub open spec fn axis_entry_dist(p: int, s: int, v: int, op: int, os: int) -> int {
    if v > 0 {
        op - (p + s)
    } else {
        p - (op + os)
    }
}

/// Signed distance from the mover's trailing edge to the far edge of the
/// obstacle, along the direction of motion (`v != 0`).
pub open spec fn axis_exit_dist(p: int, s: int, v: int, op: int, os: int) -> int {
    if v > 0 {
        op + os - p
    } else {
        p + s - op
    }
}

/// Entry time of the mover's range into the obstacle's range on one axis:
/// a still axis either always overlaps or never does.
pub open spec fn axis_entry(p: int, s: int, v: int, op: int, os: int) -> XTime {
    if v == 0 {
        if axis_overlap(p, s, op, os) {
            XTime::MInf
        } else {
            XTime::PInf
        }
    } else {
        XTime::Fin { n: axis_entry_dist(p, s, v, op, os), d: if v > 0 { v } else { -v } }
    }
}

/// Exit time of the mover's range from the obstacle's range on one axis.
pub open spec fn axis_exit(p: int, s: int, v: int, op: int, os: int) -> XTime {
    if v == 0 {
        XTime::PInf
    } else {
        XTime::Fin { n: axis_exit_dist(p, s, v, op, os), d: if v > 0 { v } else { -v } }
    }
}

pub open spec fn x_entry(m: DynamicEntity, o: Entity) -> XTime {
    axis_entry(m.entity.x as int, m.entity.width as int, m.dx as int, o.x as int, o.width as int)
}

pub open spec fn x_exit(m: DynamicEntity, o: Entity) -> XTime {
    axis_exit(m.entity.x as int, m.entity.width as int, m.dx as int, o.x as int, o.width as int)
}

pub open spec fn y_entry(m: DynamicEntity, o: Entity) -> XTime {
    axis_entry(m.entity.y as int, m.entity.height as int, m.dy as int, o.y as int, o.height as int)
}

pub open spec fn y_exit(m: DynamicEntity, o: Entity) -> XTime {
    axis_exit(m.entity.y as int, m.entity.height as int, m.dy as int, o.y as int, o.height as int)
}

/// The swept (slab) test over exact extended rationals: the combined entry
/// time, and at most one axis direction, set only when that time lies within
/// the tick. The later of the two axis entries decides the axis; a tie goes
/// to the vertical axis.
pub open spec fn spec_swept(m: DynamicEntity, o: Entity) -> (
    XTime,
    Option<HorizontalCollisionDirection>,
    Option<VerticalCollisionDirection>,
) {
    let xe = x_entry(m, o);
    let xx = x_exit(m, o);
    let ye = y_entry(m, o);
    let yx = y_exit(m, o);
    if xt_lt(yx, xe) || xt_lt(xx, ye) {
        (XTime::PInf, None, None)
    } else {
        let e = if xt_lt(ye, xe) {
            xe
        } else {
            ye
        };
        if xt_lt(e, XTime::Fin { n: 0, d: 1 }) || xt_lt(XTime::Fin { n: 1, d: 1 }, e) {
            (e, None, None)
        } else if xt_lt(ye, xe) {
            (
                e,
                Some(
                    if m.dx > 0 {
                        HorizontalCollisionDirection::Right
                    } else {
                        HorizontalCollisionDirection::Left
                    },
                ),
                None,
            )
        } else {
            (
                e,
                None,
                Some(
                    if m.dy > 0 {
                        VerticalCollisionDirection::Down
                    } else {
                        VerticalCollisionDirection::Up
                    },
                ),
            )
        }
    }
}

/// Strict order on swept times, at the executable level.
pub fn st_lt(a: &SweptTime, b: &SweptTime) -> (r: bool)
    requires
        a.wf(),
        b.wf(),
    ensures
        r == xt_lt(a@, b@),
{
    match (a, b) {
        (SweptTime::MinusInfinity, SweptTime::MinusInfinity) => false,
        (SweptTime::MinusInfinity, _) => true,
        (SweptTime::Finite(_), SweptTime::MinusInfinity) => false,
        (SweptTime::Finite(fa), SweptTime::Finite(fb)) => fa.lt(fb),
        (SweptTime::Finite(_), SweptTime::PlusInfinity) => true,
        (SweptTime::PlusInfinity, _) => false,
    }
}

/// `a < 0` on swept times.
pub fn st_lt_zero(a: &SweptTime) -> (r: bool)
    requires
        a.wf(),
    ensures
        r == xt_lt(a@, XTime::Fin { n: 0, d: 1 }),
{
    match a {
        SweptTime::MinusInfinity => true,
        SweptTime::Finite(f) => f.lt_zero(),
        SweptTime::PlusInfinity => false,
    }
}

/// `a > 1` on swept times.
pub fn st_gt_one(a: &SweptTime) -> (r: bool)
    requires
        a.wf(),
    ensures
        r == xt_lt(XTime::Fin { n: 1, d: 1 }, a@),
{
    match a {
        SweptTime::MinusInfinity => false,
        SweptTime::Finite(f) => f.gt_one(),
        SweptTime::PlusInfinity => true,
    }
}

/// Outcome of the horizontal test against the room walls: an unconditional
/// hit (walls are not swept, so the time is "always this tick") when the
/// mover would exit the playfield.
pub open spec fn spec_horizontal_bounds(m: DynamicEntity, b: room::Bounds) -> Option<
    HorizontalCollision,
> {
    if m.dx > 0 {
        if b.x_max - m.entity.width - m.dx < m.entity.x {
            Some(
                HorizontalCollision {
                    variant: CollisionVariant::Bounds,
                    direction: HorizontalCollisionDirection::Right,
                    time: SweptTime::PlusInfinity,
                },
            )
        } else {
            None
        }
    } else if m.dx < 0 {
        if m.entity.x <= -m.dx {
            Some(
                HorizontalCollision {
                    variant: CollisionVariant::Bounds,
                    direction: HorizontalCollisionDirection::Left,
                    time: SweptTime::PlusInfinity,
                },
            )
        } else {
            None
        }
    } else {
        None
    }
}

/// Outcome of the vertical test against the room walls.
pub open spec fn spec_vertical_bounds(m: DynamicEntity, b: room::Bounds) -> Option<
    VerticalCollision,
> {
    if m.dy > 0 {
        if b.y_max - m.entity.height - m.dy < m.entity.y {
            Some(
                VerticalCollision {
                    variant: CollisionVariant::Bounds,
                    direction: VerticalCollisionDirection::Down,
                    time: SweptTime::PlusInfinity,
                },
            )
        } else {
            None
        }
    } else if m.dy < 0 {
        if m.entity.y <= -m.dy {
            Some(
                VerticalCollision {
                    variant: CollisionVariant::Bounds,
                    direction: VerticalCollisionDirection::Up,
                    time: SweptTime::PlusInfinity,
                },
            )
        } else {
            None
        }
    } else {
        None
    }
}

impl DynamicEntity {
    /// Whether this entity would leave the playfield horizontally this tick;
    /// the walls are not swept, so a hit carries an unbounded time.
    pub fn horizontal_bounds_collision(&self, bounds: &room::Bounds) -> (r: Option<
        HorizontalCollision,
    >)
        requires
            self.wf(),
            bounds.wf(),
        ensures
            r == spec_horizontal_bounds(*self, *bounds),
    {
        if self.dx > 0 {
            if bounds.x_max - self.entity.width - self.dx < self.entity.x {
                Some(
                    HorizontalCollision {
                        variant: CollisionVariant::Bounds,
                        direction: HorizontalCollisionDirection::Right,
                        time: SweptTime::PlusInfinity,
                    },
                )
            } else {
                None
            }
        } else if self.dx < 0 {
            if self.entity.x <= -self.dx {
                Some(
                    HorizontalCollision {
                        variant: CollisionVariant::Bounds,
                        direction: HorizontalCollisionDirection::Left,
                        time: SweptTime::PlusInfinity,
                    },
                )
            } else {
                None
            }
        } else {
            None
        }
    }

    /// Whether this entity would leave the playfield vertically this tick.
    pub fn vertical_bounds_collision(&self, bounds: &room::Bounds) -> (r: Option<
        VerticalCollision,
    >)
        requires
            self.wf(),
            bounds.wf(),
        ensures
            r == spec_vertical_bounds(*self, *bounds),
    {
        if self.dy > 0 {
            if bounds.y_max - self.entity.height - self.dy < self.entity.y {
                Some(
                    VerticalCollision {
                        variant: CollisionVariant::Bounds,
                        direction: VerticalCollisionDirection::Down,
                        time: SweptTime::PlusInfinity,
                    },
                )
            } else {
                None
            }
        } else if self.dy < 0 {
            if self.entity.y <= -self.dy {
                Some(
                    VerticalCollision {
                        variant: CollisionVariant::Bounds,
                        direction: VerticalCollisionDirection::Up,
                        time: SweptTime::PlusInfinity,
                    },
                )
            } else {
                None
            }
        } else {
            None
        }
    }

    /// Continuous collision test of this moving rectangle against a
    /// stationary one, exactly the slab test of `spec_swept`: the entry time
    /// of the expanded ranges, and the colliding axis and direction when that
    /// time lies within the tick.
    pub fn swept_collision(&self, other: &Entity) -> (r: (
        SweptTime,
        Option<HorizontalCollisionDirection>,
        Option<VerticalCollisionDirection>,
    ))
        requires
            self.wf(),
            other.wf(),
        ensures
            (r.0@, r.1, r.2) == spec_swept(*self, *other),
            r.0.wf(),
    {
        let xe: SweptTime = if self.dx == 0 {
            if self.entity.x < other.x + other.width && other.x < self.entity.x
                + self.entity.width {
                SweptTime::MinusInfinity
            } else {
                SweptTime::PlusInfinity
            }
        } else {
            let adx: i64 = if self.dx > 0 {
                self.dx
            } else {
                -self.dx
            };
            let dist: i64 = if self.dx > 0 {
                other.x - (self.entity.x + self.entity.width)
            } else {
                self.entity.x - (other.x + other.width)
            };
            SweptTime::Finite(Frac { num: dist, den: adx })
        };
        let xx: SweptTime = if self.dx == 0 {
            SweptTime::PlusInfinity
        } else {
            let adx: i64 = if self.dx > 0 {
                self.dx
            } else {
                -self.dx
            };
            let dist: i64 = if self.dx > 0 {
                other.x + other.width - self.entity.x
            } else {
                self.entity.x + self.entity.width - other.x
            };
            SweptTime::Finite(Frac { num: dist, den: adx })
        };
        let ye: SweptTime = if self.dy == 0 {
            if self.entity.y < other.y + other.height && other.y < self.entity.y
                + self.entity.height {
                SweptTime::MinusInfinity
            } else {
                SweptTime::PlusInfinity
            }
        } else {
            let ady: i64 = if self.dy > 0 {
                self.dy
            } else {
                -self.dy
            };
            let dist: i64 = if self.dy > 0 {
                other.y - (self.entity.y + self.entity.height)
            } else {
                self.entity.y - (other.y + other.height)
            };
            SweptTime::Finite(Frac { num: dist, den: ady })
        };
        let yx: SweptTime = if self.dy == 0 {
            SweptTime::PlusInfinity
        } else {
            let ady: i64 = if self.dy > 0 {
                self.dy
            } else {
                -self.dy
            };
            let dist: i64 = if self.dy > 0 {
                other.y + other.height - self.entity.y
            } else {
                self.entity.y + self.entity.height - other.y
            };
            SweptTime::Finite(Frac { num: dist, den: ady })
        };
        proof {
            assert(xe@ == x_entry(*self, *other));
            assert(xx@ == x_exit(*self, *other));
            assert(ye@ == y_entry(*self, *other));
            assert(yx@ == y_exit(*self, *other));
        }
        if st_lt(&yx, &xe) || st_lt(&xx, &ye) {
            return (SweptTime::PlusInfinity, None, None);
        }
        let e: SweptTime = if st_lt(&ye, &xe) {
            xe
        } else {
            ye
        };
        if st_lt_zero(&e) || st_gt_one(&e) {
            return (e, None, None);
        }
        if st_lt(&ye, &xe) {
            if self.dx > 0 {
                (e, Some(HorizontalCollisionDirection::Right), None)
            } else {
                (e, Some(HorizontalCollisionDirection::Left), None)
            }
        } else {
            if self.dy > 0 {
                (e, None, Some(VerticalCollisionDirection::Down))
            } else {
                (e, None, Some(VerticalCollisionDirection::Up))
            }
        }
    }
}

/// The entry time of the swept test is an exact fraction with a positive
/// denominator, and it fits the executable fraction type whenever the
/// geometry is within limits.
pub proof fn lemma_swept_time_wf(m: DynamicEntity, o: Entity)
    requires
        m.wf(),
        o.wf(),
    ensures
        crate::frac::xt_pos(spec_swept(m, o).0),
        (match spec_swept(m, o).0 {
            XTime::Fin { n, d } => -FRAC_LIMIT <= n <= FRAC_LIMIT && 0 < d <= FRAC_LIMIT,
            _ => true,
        }),
{
}

/// The slab time of impact against the Minkowski-expanded obstacle: the
/// combined entry time, provided the two per-axis overlap intervals meet.
pub open spec fn slab_toi(m: DynamicEntity, o: Entity) -> Option<XTime> {
    let xe = x_entry(m, o);
    let xx = x_exit(m, o);
    let ye = y_entry(m, o);
    let yx = y_exit(m, o);
    if xt_lt(yx, xe) || xt_lt(xx, ye) {
        None
    } else {
        Some(
            if xt_lt(ye, xe) {
                xe
            } else {
                ye
            },
        )
    }
}

/// Whether the slab test finds a time of impact within the tick.
pub open spec fn slab_toi_in_unit(m: DynamicEntity, o: Entity) -> bool {
    match slab_toi(m, o) {
        None => false,
        Some(e) => !xt_lt(e, XTime::Fin { n: 0, d: 1 }) && !xt_lt(XTime::Fin { n: 1, d: 1 }, e),
    }
}

/// `swept_collision` reports no collision exactly when the slab test finds
/// no time of impact within the tick.
pub proof fn lemma_swept_no_collision_iff(m: DynamicEntity, o: Entity)
    ensures
        (spec_swept(m, o).1 is None && spec_swept(m, o).2 is None) <==> !slab_toi_in_unit(m, o),
{
}

/// The mover's reference interval on one axis covers the expanded obstacle
/// interval at time `tn / td` (with `td > 0`): on a moving axis this is
/// closed containment between the entry and exit distances; a still axis
/// counts only if the ranges overlap openly, which is the engine's
/// convention for axes that never move.
pub open spec fn axis_covered(p: int, s: int, v: int, op: int, os: int, tn: int, td: int) -> bool {
    if v == 0 {
        axis_overlap(p, s, op, os)
    } else {
        let d = if v > 0 {
            v
        } else {
            -v
        };
        axis_entry_dist(p, s, v, op, os) * td <= tn * d && tn * d <= axis_exit_dist(
            p,
            s,
            v,
            op,
            os,
        ) * td
    }
}

/// The moving rectangle touches the obstacle at time `tn / td`: both axes
/// are covered at once.
pub open spec fn contact_at(m: DynamicEntity, o: Entity, tn: int, td: int) -> bool {
    &&& axis_covered(
        m.entity.x as int,
        m.entity.width as int,
        m.dx as int,
        o.x as int,
        o.width as int,
        tn,
        td,
    )
    &&& axis_covered(
        m.entity.y as int,
        m.entity.height as int,
        m.dy as int,
        o.y as int,
        o.height as int,
        tn,
        td,
    )
}

/// When a collision is reported, the reported time is a genuine touching
/// time: the mover covers the Minkowski-expanded obstacle on both axes at
/// that instant.
pub proof fn lemma_swept_reports_contact(m: DynamicEntity, o: Entity, tn: int, td: int)
    requires
        m.wf(),
        o.wf(),
        spec_swept(m, o).1 is Some || spec_swept(m, o).2 is Some,
        spec_swept(m, o).0 == (XTime::Fin { n: tn, d: td }),
    ensures
        td > 0,
        contact_at(m, o, tn, td),
{
    let px = m.entity.x as int;
    let sx = m.entity.width as int;
    let vx = m.dx as int;
    let ox = o.x as int;
    let osx = o.width as int;
    let py = m.entity.y as int;
    let sy = m.entity.height as int;
    let vy = m.dy as int;
    let oy = o.y as int;
    let osy = o.height as int;
    // the combined entry is at or after each axis entry and at or before each
    // axis exit; on each moving axis that is exactly coverage at that time
    if vx != 0 {
        let d = if vx > 0 {
            vx
        } else {
            -vx
        };
        assert(axis_entry_dist(px, sx, vx, ox, osx) <= axis_exit_dist(px, sx, vx, ox, osx));
        if x_entry(m, o) == (XTime::Fin { n: tn, d: td }) {
            assert(axis_entry_dist(px, sx, vx, ox, osx) * td <= tn * d) by (nonlinear_arith)
                requires
                    tn == axis_entry_dist(px, sx, vx, ox, osx),
                    td == d,
            ;
            assert(tn * d <= axis_exit_dist(px, sx, vx, ox, osx) * td) by (nonlinear_arith)
                requires
                    tn == axis_entry_dist(px, sx, vx, ox, osx),
                    td == d,
                    tn <= axis_exit_dist(px, sx, vx, ox, osx),
                    d > 0,
            ;
        } else {
            // the entry of the other axis won the maximum: x entry <= t <= x exit
            assert(axis_entry_dist(px, sx, vx, ox, osx) * td <= tn * d);
            assert(tn * d <= axis_exit_dist(px, sx, vx, ox, osx) * td);
        }
    }
    if vy != 0 {
        let d = if vy > 0 {
            vy
        } else {
            -vy
        };
        assert(axis_entry_dist(py, sy, vy, oy, osy) <= axis_exit_dist(py, sy, vy, oy, osy));
        if y_entry(m, o) == (XTime::Fin { n: tn, d: td }) {
            assert(axis_entry_dist(py, sy, vy, oy, osy) * td <= tn * d) by (nonlinear_arith)
                requires
                    tn == axis_entry_dist(py, sy, vy, oy, osy),
                    td == d,
            ;
            assert(tn * d <= axis_exit_dist(py, sy, vy, oy, osy) * td) by (nonlinear_arith)
                requires
                    tn == axis_entry_dist(py, sy, vy, oy, osy),
                    td == d,
                    tn <= axis_exit_dist(py, sy, vy, oy, osy),
                    d > 0,
            ;
        } else {
            assert(axis_entry_dist(py, sy, vy, oy, osy) * td <= tn * d);
            assert(tn * d <= axis_exit_dist(py, sy, vy, oy, osy) * td);
        }
    }
}

/// Before the reported time of impact there is no contact: the reported
/// time is the first touching time of the tick.
pub proof fn lemma_swept_first_contact(
    m: DynamicEntity,
    o: Entity,
    tn: int,
    td: int,
    pn: int,
    pd: int,
)
    requires
        spec_swept(m, o).1 is Some || spec_swept(m, o).2 is Some,
        spec_swept(m, o).0 == (XTime::Fin { n: tn, d: td }),
        pd > 0,
        pn * td < tn * pd,  // pn / pd < tn / td
    ensures
        !contact_at(m, o, pn, pd),
{
    // the reported time is one of the two axis entries; on that axis,
    // coverage at an earlier time would contradict the entry bound
    if x_entry(m, o) == (XTime::Fin { n: tn, d: td }) && xt_lt(y_entry(m, o), x_entry(m, o)) {
        let px = m.entity.x as int;
        let sx = m.entity.width as int;
        let vx = m.dx as int;
        let ox = o.x as int;
        let osx = o.width as int;
        let d = if vx > 0 {
            vx
        } else {
            -vx
        };
        assert(vx != 0);
        assert(tn == axis_entry_dist(px, sx, vx, ox, osx) && td == d);
        assert(!(axis_entry_dist(px, sx, vx, ox, osx) * pd <= pn * d)) by (nonlinear_arith)
            requires
                pn * td < tn * pd,
                tn == axis_entry_dist(px, sx, vx, ox, osx),
                td == d,
                d > 0,
                pd > 0,
        ;
    } else {
        let py = m.entity.y as int;
        let sy = m.entity.height as int;
        let vy = m.dy as int;
        let oy = o.y as int;
        let osy = o.height as int;
        assert(y_entry(m, o) == (XTime::Fin { n: tn, d: td }));
        let d = if vy > 0 {
            vy
        } else {
            -vy
        };
        assert(vy != 0);
        assert(tn == axis_entry_dist(py, sy, vy, oy, osy) && td == d);
        assert(!(axis_entry_dist(py, sy, vy, oy, osy) * pd <= pn * d)) by (nonlinear_arith)
            requires
                pn * td < tn * pd,
                tn == axis_entry_dist(py, sy, vy, oy, osy),
                td == d,
                d > 0,
                pd > 0,
        ;
    }
}

/// Mirror of a horizontal direction, for the symmetry law.
pub open spec fn h_mirror(d: Option<HorizontalCollisionDirection>) -> Option<
    HorizontalCollisionDirection,
> {
    match d {
        None => None,
        Some(HorizontalCollisionDirection::Left) => Some(HorizontalCollisionDirection::Right),
        Some(HorizontalCollisionDirection::Right) => Some(HorizontalCollisionDirection::Left),
    }
}

/// Mirror of a vertical direction, for the symmetry law.
pub open spec fn v_mirror(d: Option<VerticalCollisionDirection>) -> Option<
    VerticalCollisionDirection,
> {
    match d {
        None => None,
        Some(VerticalCollisionDirection::Up) => Some(VerticalCollisionDirection::Down),
        Some(VerticalCollisionDirection::Down) => Some(VerticalCollisionDirection::Up),
    }
}

/// Symmetry of the swept test: letting the other rectangle move with the
/// negated velocity yields the same entry time, with mirrored directions.
pub proof fn lemma_swept_symmetry(m: DynamicEntity, o: Entity)
    requires
        m.wf(),
        o.wf(),
    ensures
        ({
            let m2 = DynamicEntity {
                entity: o,
                dx: (-(m.dx as int)) as i64,
                dy: (-(m.dy as int)) as i64,
                weight: m.weight,
            };
            let r = spec_swept(m, o);
            let r2 = spec_swept(m2, m.entity);
            r.0 == r2.0 && r2.1 == h_mirror(r.1) && r2.2 == v_mirror(r.2)
        }),
{
    let m2 = DynamicEntity {
        entity: o,
        dx: (-(m.dx as int)) as i64,
        dy: (-(m.dy as int)) as i64,
        weight: m.weight,
    };
    assert(m2.dx as int == -(m.dx as int));
    assert(m2.dy as int == -(m.dy as int));
    assert(x_entry(m, o) == x_entry(m2, m.entity));
    assert(x_exit(m, o) == x_exit(m2, m.entity));
    assert(y_entry(m, o) == y_entry(m2, m.entity));
    assert(y_exit(m, o) == y_exit(m2, m.entity));
}

} // verus!
