use vstd::prelude::*;
use crate::bullet::{Bullet, BulletPath};
use crate::entity::{Entity, SIZE_LIMIT};

verus! {

/// Outer walls of a room. The playfield spans `0..=x_max` by `0..=y_max`;
/// the implicit minima on both axes are zero.
#[derive(Clone, Copy, Debug, PartialEq, Eq, Structural)]
pub struct Bounds {
    pub x_max: i64,
    pub y_max: i64,
}

/// A portal: colliding with it from either horizontal side teleports the
/// player to the paired door in the destination room.
#[derive(Clone, Copy, Debug, PartialEq, Eq, Structural)]
pub struct Door {
    pub entity: Entity,
    pub room_idx: usize,
    pub door_idx: usize,
}

impl Bounds {
    pub open spec fn wf(self) -> bool {
        0 < self.x_max <= SIZE_LIMIT && 0 < self.y_max <= SIZE_LIMIT
    }
}

/// An obstacle rectangle that sits inside the walls of its room.
pub open spec fn entity_in_bounds(e: Entity, b: Bounds) -> bool {
    &&& 0 <= e.x && e.x + e.width <= b.x_max
    &&& 0 <= e.y && e.y + e.height <= b.y_max
    &&& 0 <= e.width <= SIZE_LIMIT
    &&& 0 <= e.height <= SIZE_LIMIT
}

/// A room's static, process-lifetime definition.
pub struct Room {
    pub gravity: i64,
    pub bounds: Bounds,
    pub platforms: Vec<Entity>,
    pub doors: Vec<Door>,
}

/// Per-room, per-tick scratch: bullets waiting to be resolved and the
/// resolved paths not yet handed to rendering.
pub struct RoomMut {
    pub bullets: Vec<Bullet>,
    pub bullet_paths: Vec<BulletPath>,
}

impl Room {
    /// Sane static geometry: everything sits inside the walls and every
    /// door names a room of the table.
    pub open spec fn wf(self, room_count: int) -> bool {
        &&& 0 <= self.gravity <= 0x1000
        &&& self.bounds.wf()
        &&& forall|i: int|
            0 <= i < self.platforms@.len() ==> entity_in_bounds(
                #[trigger] self.platforms@[i],
                self.bounds,
            )
        &&& forall|i: int|
            0 <= i < self.doors@.len() ==> entity_in_bounds(
                (#[trigger] self.doors@[i]).entity,
                self.bounds,
            ) && self.doors@[i].room_idx < room_count
    }
}

/// A well-formed room table: every room is well-formed and every door's
/// paired door exists in the destination room.
pub open spec fn wf_rooms(rooms: Seq<Room>) -> bool {
    &&& forall|r: int| 0 <= r < rooms.len() ==> (#[trigger] rooms[r]).wf(rooms.len() as int)
    &&& forall|r: int, d: int|
        0 <= r < rooms.len() && 0 <= d < rooms[r].doors@.len() ==> (#[trigger] rooms[r].doors@[
            d
        ]).door_idx < rooms[rooms[r].doors@[d].room_idx as int].doors@.len()
}

/// Number of rooms in the stock table.
pub const ROOM_COUNT: usize = 2;

/// The stock room table: two rooms of the same size joined by a pair of
/// doors on their facing walls.
pub fn rooms() -> (r: Vec<Room>)
    ensures
        r@.len() == ROOM_COUNT,
        wf_rooms(r@),
        r@[0].gravity == 9 && r@[1].gravity == 9,
        r@[0].bounds == (Bounds { x_max: 1530, y_max: 1530 }),
        r@[1].bounds == (Bounds { x_max: 1530, y_max: 1530 }),
        r@[0].platforms@ =~= seq![
            Entity { x: 420, y: 1470, width: 300, height: 18 },
            Entity { x: 600, y: 1320, width: 300, height: 18 },
            Entity { x: 1020, y: 1380, width: 300, height: 18 },
        ],
        r@[0].doors@ =~= seq![
            Door {
                entity: Entity { x: 1500, y: 1350, width: 30, height: 180 },
                room_idx: 1,
                door_idx: 0,
            },
        ],
        r@[1].platforms@ =~= seq![Entity { x: 420, y: 1470, width: 300, height: 18 }],
        r@[1].doors@ =~= seq![
            Door {
                entity: Entity { x: 0, y: 1350, width: 30, height: 180 },
                room_idx: 0,
                door_idx: 0,
            },
        ],
{
    let mut platforms0: Vec<Entity> = Vec::new();
    platforms0.push(Entity { x: 420, y: 1470, width: 300, height: 18 });
    platforms0.push(Entity { x: 600, y: 1320, width: 300, height: 18 });
    platforms0.push(Entity { x: 1020, y: 1380, width: 300, height: 18 });
    let mut doors0: Vec<Door> = Vec::new();
    doors0.push(
        Door {
            entity: Entity { x: 1500, y: 1350, width: 30, height: 180 },
            room_idx: 1,
            door_idx: 0,
        },
    );
    let room0 = Room {
        gravity: 9,
        bounds: Bounds { x_max: 1530, y_max: 1530 },
        platforms: platforms0,
        doors: doors0,
    };
    let mut platforms1: Vec<Entity> = Vec::new();
    platforms1.push(Entity { x: 420, y: 1470, width: 300, height: 18 });
    let mut doors1: Vec<Door> = Vec::new();
    doors1.push(
        Door {
            entity: Entity { x: 0, y: 1350, width: 30, height: 180 },
            room_idx: 0,
            door_idx: 0,
        },
    );
    let room1 = Room {
        gravity: 9,
        bounds: Bounds { x_max: 1530, y_max: 1530 },
        platforms: platforms1,
        doors: doors1,
    };
    let mut r: Vec<Room> = Vec::new();
    r.push(room0);
    r.push(room1);
    proof {
        assert forall|i: int| 0 <= i < r@[0].platforms@.len() implies entity_in_bounds(
            #[trigger] r@[0].platforms@[i],
            r@[0].bounds,
        ) by {
            if i == 0 {
                assert(entity_in_bounds(r@[0].platforms@[0], r@[0].bounds));
            } else if i == 1 {
                assert(entity_in_bounds(r@[0].platforms@[1], r@[0].bounds));
            } else {
                assert(entity_in_bounds(r@[0].platforms@[2], r@[0].bounds));
            }
        }
        assert(r@[0].wf(2));
        assert(r@[1].wf(2));
        assert(wf_rooms(r@));
    }
    r
}

impl RoomMut {
    /// Empty scratch.
    pub fn new() -> (r: RoomMut)
        ensures
            r.bullets@.len() == 0,
            r.bullet_paths@.len() == 0,
    {
        RoomMut { bullets: Vec::new(), bullet_paths: Vec::new() }
    }
}

/// Fresh scratch for every room of the stock table.
pub fn rooms_mut() -> (r: Vec<RoomMut>)
    ensures
        r@.len() == ROOM_COUNT,
        forall|i: int|
            0 <= i < r@.len() ==> (#[trigger] r@[i]).bullets@.len() == 0 && r@[
                i
            ].bullet_paths@.len() == 0,
{
    let mut r: Vec<RoomMut> = Vec::new();
    r.push(RoomMut::new());
    r.push(RoomMut::new());
    r
}

} // verus!
