use vstd::prelude::*;
use crate::frac::{Frac, XTime, xt_lt};
use crate::entity::Entity;

verus! {

/// Magnitude cap on the fields of a ray.
pub const RAY_LIMIT: i64 = 0x800_0000;

/// What a bullet's ray struck.
#[derive(Clone, Copy, Debug, PartialEq, Eq, Structural)]
pub enum IntersectionVariant {
    User(usize),
    Platform,
}

/// The nearest resolved strike of a ray, with the slab crossing parameter at
/// which it happens.
#[derive(Clone, Copy, Debug, PartialEq, Eq, Structural)]
pub struct Intersection {
    pub variant: IntersectionVariant,
    pub distance: Frac,
}

/// A hit-scan ray from a firing player's center toward a click point. The
/// direction is the raw integer offset from the origin to the click point;
/// crossing parameters are fractions of that vector, so the struck points
/// are exactly those of the unit-direction form.
#[derive(Clone, Copy, Debug, PartialEq, Eq, Structural)]
pub struct Ray {
    pub origin_x: i64,
    pub origin_y: i64,
    pub direction_x: i64,
    pub direction_y: i64,
}

impl Ray {
    pub open spec fn wf(self) -> bool {
        &&& -RAY_LIMIT <= self.origin_x <= RAY_LIMIT
        &&& -RAY_LIMIT <= self.origin_y <= RAY_LIMIT
        &&& -RAY_LIMIT <= self.direction_x <= RAY_LIMIT
        &&& -RAY_LIMIT <= self.direction_y <= RAY_LIMIT
    }
}

/// Near crossing parameter of the ray into an axis slab `[ep, ep + es]`;
/// a still axis never constrains the crossing interval.
pub open spec fn ray_axis_lo(o: int, v: int, ep: int, es: int) -> XTime {
    if v == 0 {
        XTime::MInf
    } else if v > 0 {
        XTime::Fin { n: ep - o, d: v }
    } else {
        XTime::Fin { n: o - (ep + es), d: -v }
    }
}

/// Far crossing parameter of the ray out of an axis slab `[ep, ep + es]`.
pub open spec fn ray_axis_hi(o: int, v: int, ep: int, es: int) -> XTime {
    if v == 0 {
        XTime::PInf
    } else if v > 0 {
        XTime::Fin { n: ep + es - o, d: v }
    } else {
        XTime::Fin { n: o - ep, d: -v }
    }
}

pub open spec fn xt_max(a: XTime, b: XTime) -> XTime {
    if xt_lt(a, b) {
        b
    } else {
        a
    }
}

pub open spec fn xt_min(a: XTime, b: XTime) -> XTime {
    if xt_lt(b, a) {
        b
    } else {
        a
    }
}

/// The far slab crossing that the hit scan uses as its strike distance: the
/// minimum of the per-axis far crossings, reported when the crossing
/// interval is nonempty and does not lie wholly behind the origin. The far
/// boundary (not the near one) is what the engine has always measured, and
/// callers rely on that exact behavior. A ray with a zero direction vector
/// has an unbounded far crossing and reports no strike.
pub open spec fn spec_ray_intersection(r: Ray, e: Entity) -> Option<XTime> {
    let lo = xt_max(
        ray_axis_lo(r.origin_x as int, r.direction_x as int, e.x as int, e.width as int),
        ray_axis_lo(r.origin_y as int, r.direction_y as int, e.y as int, e.height as int),
    );
    let hi = xt_min(
        ray_axis_hi(r.origin_x as int, r.direction_x as int, e.x as int, e.width as int),
        ray_axis_hi(r.origin_y as int, r.direction_y as int, e.y as int, e.height as int),
    );
    if xt_lt(hi, lo) {
        None
    } else if xt_lt(hi, XTime::Fin { n: 0, d: 1 }) {
        None
    } else {
        match hi {
            XTime::Fin { n, d } => Some(hi),
            _ => None,
        }
    }
}

impl Ray {
    /// A ray from the center of `entity` toward the point `(x, y)`; the
    /// center halves round toward zero.
    pub fn from_entity_and_position(entity: &Entity, x: i64, y: i64) -> (r: Ray)
        requires
            entity.wf(),
            -0x40_0000 <= x <= 0x40_0000,
            -0x40_0000 <= y <= 0x40_0000,
        ensures
            r.origin_x == entity.x + entity.width as int / 2,
            r.origin_y == entity.y + entity.height as int / 2,
            r.direction_x == x - r.origin_x,
            r.direction_y == y - r.origin_y,
            r.wf(),
    {
        let origin_x: i64 = entity.x + ((entity.width as u64 / 2) as i64);
        let origin_y: i64 = entity.y + ((entity.height as u64 / 2) as i64);
        Ray {
            origin_x,
            origin_y,
            direction_x: x - origin_x,
            direction_y: y - origin_y,
        }
    }

    /// Slab intersection of this ray with a rectangle, measured at the far
    /// boundary, exactly `spec_ray_intersection`.
    pub fn intersection(&self, entity: &Entity) -> (r: Option<Frac>)
        requires
            self.wf(),
            entity.wf(),
        ensures
            match r {
                None => spec_ray_intersection(*self, *entity) is None,
                Some(f) => spec_ray_intersection(*self, *entity) == Some(f@) && f.wf(),
            },
    {
        let x_lo: crate::entity::SweptTime = if self.direction_x == 0 {
            crate::entity::SweptTime::MinusInfinity
        } else if self.direction_x > 0 {
            crate::entity::SweptTime::Finite(
                Frac { num: entity.x - self.origin_x, den: self.direction_x },
            )
        } else {
            crate::entity::SweptTime::Finite(
                Frac {
                    num: self.origin_x - (entity.x + entity.width),
                    den: -self.direction_x,
                },
            )
        };
        let x_hi: crate::entity::SweptTime = if self.direction_x == 0 {
            crate::entity::SweptTime::PlusInfinity
        } else if self.direction_x > 0 {
            crate::entity::SweptTime::Finite(
                Frac { num: entity.x + entity.width - self.origin_x, den: self.direction_x },
            )
        } else {
            crate::entity::SweptTime::Finite(
                Frac { num: self.origin_x - entity.x, den: -self.direction_x },
            )
        };
        let y_lo: crate::entity::SweptTime = if self.direction_y == 0 {
            crate::entity::SweptTime::MinusInfinity
        } else if self.direction_y > 0 {
            crate::entity::SweptTime::Finite(
                Frac { num: entity.y - self.origin_y, den: self.direction_y },
            )
        } else {
            crate::entity::SweptTime::Finite(
                Frac {
                    num: self.origin_y - (entity.y + entity.height),
                    den: -self.direction_y,
                },
            )
        };
        let y_hi: crate::entity::SweptTime = if self.direction_y == 0 {
            crate::entity::SweptTime::PlusInfinity
        } else if self.direction_y > 0 {
            crate::entity::SweptTime::Finite(
                Frac { num: entity.y + entity.height - self.origin_y, den: self.direction_y },
            )
        } else {
            crate::entity::SweptTime::Finite(
                Frac { num: self.origin_y - entity.y, den: -self.direction_y },
            )
        };
        let lo: crate::entity::SweptTime = if crate::entity::st_lt(&x_lo, &y_lo) {
            y_lo
        } else {
            x_lo
        };
        let hi: crate::entity::SweptTime = if crate::entity::st_lt(&y_hi, &x_hi) {
            y_hi
        } else {
            x_hi
        };
        if crate::entity::st_lt(&hi, &lo) {
            return None;
        }
        if crate::entity::st_lt_zero(&hi) {
            return None;
        }
        match hi {
            crate::entity::SweptTime::Finite(f) => Some(f),
            _ => None,
        }
    }
}

/// The integer square root at the specification level.
pub open spec fn int_sqrt(n: int) -> int {
    choose|r: int| 0 <= r && #[trigger] (r * r) <= n && n < (r + 1) * (r + 1)
}

/// The integer square root is unique, so any witness determines it.
pub proof fn lemma_int_sqrt_unique(n: int, r: int)
    requires
        0 <= r,
        r * r <= n,
        n < (r + 1) * (r + 1),
    ensures
        int_sqrt(n) == r,
{
    assert(0 <= r && r * r <= n && n < (r + 1) * (r + 1));
    let c = int_sqrt(n);
    assert(0 <= c && c * c <= n && n < (c + 1) * (c + 1));
    assert(c == r) by (nonlinear_arith)
        requires
            0 <= r,
            r * r <= n,
            n < (r + 1) * (r + 1),
            0 <= c,
            c * c <= n,
            n < (c + 1) * (c + 1),
    ;
}

/// Integer square root: the greatest `r` with `r * r <= n`.
pub fn isqrt(n: u64) -> (r: u64)
    requires
        n < 0x4000_0000_0000_0000,
    ensures
        r * r <= n,
        n < (r + 1) * (r + 1),
        r < 0x8000_0000,
{
    proof {
        assert(0x8000_0000u64 * 0x8000_0000u64 > 0x3FFF_FFFF_FFFF_FFFFu64) by (nonlinear_arith);
    }
    let mut lo: u64 = 0;
    let mut hi: u64 = 0x8000_0000;
    while lo + 1 < hi
        invariant
            lo < hi <= 0x8000_0000,
            lo * lo <= n,
            n < hi * hi,
        decreases hi - lo,
    {
        let mid: u64 = lo + (hi - lo) / 2;
        proof {
            assert(mid * mid < 0x8000_0000u64 * 0x8000_0000u64) by (nonlinear_arith)
                requires
                    mid < 0x8000_0000u64,
            ;
        }
        if mid * mid <= n {
            lo = mid;
        } else {
            hi = mid;
        }
    }
    lo
}

} // verus!
