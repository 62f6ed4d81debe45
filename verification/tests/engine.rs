use platformer_core::bullet::{Bullet, BulletPath};
use platformer_core::entity::{
    DynamicEntity, Entity, HorizontalCollisionDirection, SweptTime, VerticalCollisionDirection,
};
use platformer_core::frac::Frac;
use platformer_core::game::Game;
use platformer_core::input::{parse_binary, Input};
use platformer_core::ray::{isqrt, IntersectionVariant, Ray};
use platformer_core::room::{rooms, rooms_mut, RoomMut, ROOM_COUNT};
use platformer_core::user::{User, COYOTE_TICKS, JUMP_BUFFER_TICKS, RUN_MAX_SPEED, USER_SIZE};

fn still_box(x: i64, y: i64, w: i64, h: i64) -> Entity {
    Entity {
        x,
        y,
        width: w,
        height: h,
    }
}

fn mover(x: i64, y: i64, dx: i64, dy: i64) -> DynamicEntity {
    DynamicEntity {
        entity: still_box(x, y, 60, 60),
        dx,
        dy,
        weight: 3,
    }
}

fn frac(time: SweptTime) -> Frac {
    match time {
        SweptTime::Finite(f) => f,
        _ => panic!("expected a finite time"),
    }
}

#[test]
fn swept_hits_a_box_to_the_right() {
    let m = mover(0, 0, 12, 0);
    let o = still_box(66, 0, 60, 60);
    let (t, h, v) = m.swept_collision(&o);
    // entry distance 6 at speed 12: half a tick
    let f = frac(t);
    assert_eq!(f.num * 2, f.den);
    assert_eq!(h, Some(HorizontalCollisionDirection::Right));
    assert_eq!(v, None);
}

#[test]
fn swept_misses_a_separated_box() {
    let m = mover(0, 0, 12, 0);
    let o = still_box(200, 200, 60, 60);
    let (_, h, v) = m.swept_collision(&o);
    assert_eq!(h, None);
    assert_eq!(v, None);
}

#[test]
fn swept_rejects_entry_beyond_one_tick() {
    let m = mover(0, 0, 2, 0);
    let o = still_box(66, 0, 60, 60);
    // entry distance 6 at speed 2: three ticks away
    let (t, h, v) = m.swept_collision(&o);
    assert_eq!(h, None);
    assert_eq!(v, None);
    let f = frac(t);
    assert_eq!(f.num, 6);
    assert_eq!(f.den, 2);
}

#[test]
fn swept_tie_goes_to_the_vertical_axis() {
    // equal entry times on both axes
    let m = mover(0, 0, 12, 12);
    let o = still_box(66, 66, 60, 60);
    let (t, h, v) = m.swept_collision(&o);
    let f = frac(t);
    assert_eq!(f.num * 2, f.den);
    assert_eq!(h, None);
    assert_eq!(v, Some(VerticalCollisionDirection::Down));
}

#[test]
fn swept_symmetry_under_swap_and_negation() {
    let m = mover(10, 22, 12, 5);
    let o = still_box(80, 40, 50, 20);
    let (t1, h1, v1) = m.swept_collision(&o);
    let swapped = DynamicEntity {
        entity: o,
        dx: -12,
        dy: -5,
        weight: 3,
    };
    let (t2, h2, v2) = swapped.swept_collision(&m.entity);
    let f1 = frac(t1);
    let f2 = frac(t2);
    assert_eq!(f1, f2);
    // directions mirror
    assert_eq!(h1, Some(HorizontalCollisionDirection::Right));
    assert_eq!(h2, Some(HorizontalCollisionDirection::Left));
    assert_eq!(v1, None);
    assert_eq!(v2, None);
}

#[test]
fn swept_overlapping_still_axes_report_minus_infinity() {
    let m = mover(0, 0, 0, 0);
    let o = still_box(30, 30, 60, 60);
    let (t, h, v) = m.swept_collision(&o);
    assert!(matches!(t, SweptTime::MinusInfinity));
    assert_eq!(h, None);
    assert_eq!(v, None);
}

#[test]
fn bounds_collision_right_edge() {
    let m = mover(1465, 0, 12, 0);
    let b = platformer_core::room::Bounds {
        x_max: 1530,
        y_max: 1530,
    };
    let c = m.horizontal_bounds_collision(&b).expect("hit");
    assert_eq!(c.direction, HorizontalCollisionDirection::Right);
    assert!(m.vertical_bounds_collision(&b).is_none());
}

#[test]
fn bounds_collision_left_edge() {
    let m = mover(5, 0, -6, 0);
    let b = platformer_core::room::Bounds {
        x_max: 1530,
        y_max: 1530,
    };
    let c = m.horizontal_bounds_collision(&b).expect("hit");
    assert_eq!(c.direction, HorizontalCollisionDirection::Left);
}

#[test]
fn ray_reports_the_far_boundary() {
    let ray = Ray {
        origin_x: 0,
        origin_y: 30,
        direction_x: 100,
        direction_y: 0,
    };
    let e = still_box(50, 0, 60, 60);
    let f = ray.intersection(&e).expect("hit");
    // the far boundary sits at x = 110, not the near one at 50
    assert_eq!(f.num, 110);
    assert_eq!(f.den, 100);
}

#[test]
fn ray_misses_behind_the_origin() {
    let ray = Ray {
        origin_x: 500,
        origin_y: 30,
        direction_x: 100,
        direction_y: 0,
    };
    let e = still_box(50, 0, 60, 60);
    assert!(ray.intersection(&e).is_none());
}

#[test]
fn degenerate_ray_hits_nothing() {
    let ray = Ray {
        origin_x: 0,
        origin_y: 0,
        direction_x: 0,
        direction_y: 0,
    };
    let e = still_box(-30, -30, 60, 60);
    assert!(ray.intersection(&e).is_none());
}

#[test]
fn ray_construction_from_center() {
    let e = still_box(0, 0, 60, 60);
    let ray = Ray::from_entity_and_position(&e, 630, 30);
    assert_eq!(ray.origin_x, 30);
    assert_eq!(ray.origin_y, 30);
    assert_eq!(ray.direction_x, 600);
    assert_eq!(ray.direction_y, 0);
}

#[test]
fn integer_square_roots() {
    assert_eq!(isqrt(0), 0);
    assert_eq!(isqrt(1), 1);
    assert_eq!(isqrt(8), 2);
    assert_eq!(isqrt(9), 3);
    assert_eq!(isqrt(1_000_000), 1000);
}

#[test]
fn default_path_extends_down_the_ray() {
    let b = Bullet {
        user_idx: 0,
        target_user_idx: 1,
        room_idx: 0,
        ray: Ray {
            origin_x: 30,
            origin_y: 30,
            direction_x: 300,
            direction_y: 400,
        },
    };
    let p = BulletPath::from_bullet(&b, None);
    // |direction| = 500; the trace is 1200 sub-units long
    assert_eq!(p.origin_x, 30);
    assert_eq!(p.origin_y, 30);
    assert_eq!(p.end_x, 30 + 1200 * 300 / 500);
    assert_eq!(p.end_y, 30 + 1200 * 400 / 500);
}

#[test]
fn parse_every_input_code() {
    assert_eq!(parse_binary(&[0]), Some(Input::UpStart));
    assert_eq!(parse_binary(&[1]), Some(Input::UpEnd));
    assert_eq!(parse_binary(&[2]), Some(Input::DownStart));
    assert_eq!(parse_binary(&[3]), Some(Input::DownEnd));
    assert_eq!(parse_binary(&[4]), Some(Input::LeftStart));
    assert_eq!(parse_binary(&[5]), Some(Input::LeftEnd));
    assert_eq!(parse_binary(&[6]), Some(Input::RightStart));
    assert_eq!(parse_binary(&[7]), Some(Input::RightEnd));
    assert_eq!(
        parse_binary(&[8, 0, 100, 1, 0]),
        Some(Input::Click { x: 600, y: 1536 })
    );
    assert_eq!(parse_binary(&[8, 0]), None);
    assert_eq!(parse_binary(&[9]), None);
}

#[test]
fn stock_rooms_are_linked_by_doors() {
    let rs = rooms();
    assert_eq!(rs.len(), ROOM_COUNT);
    assert_eq!(rs[0].gravity, 9);
    assert_eq!(rs[0].platforms.len(), 3);
    assert_eq!(rs[0].doors.len(), 1);
    assert_eq!(rs[0].doors[0].room_idx, 1);
    assert_eq!(rs[1].doors[0].room_idx, 0);
    let ms = rooms_mut();
    assert_eq!(ms.len(), ROOM_COUNT);
    assert!(ms[0].bullets.is_empty() && ms[0].bullet_paths.is_empty());
    let fresh = RoomMut::new();
    assert!(fresh.bullets.is_empty());
}

fn grounded_user(room: usize) -> User {
    // resting on the first platform of room 0: platform top at 1470
    let mut u = User::new(0, room, 0);
    u.dynamic_entity.entity.x = 480;
    u.dynamic_entity.entity.y = 1470 - USER_SIZE;
    u
}

#[test]
fn run_acceleration_caps_at_max_speed() {
    let rs = rooms();
    let users: Vec<Option<User>> = vec![None];
    let mut u = grounded_user(0);
    u.holding_right = true;
    for i in 1..=20 {
        u.tick(&users, &rs);
        let expected = std::cmp::min(2 * i, RUN_MAX_SPEED);
        assert_eq!(u.dynamic_entity.dx, expected);
        assert!(u.dynamic_entity.dx <= RUN_MAX_SPEED);
    }
}

#[test]
fn releasing_the_run_decelerates_to_rest() {
    let rs = rooms();
    let users: Vec<Option<User>> = vec![None];
    let mut u = grounded_user(0);
    u.dynamic_entity.dx = 6;
    for _ in 0..4 {
        u.tick(&users, &rs);
    }
    assert_eq!(u.dynamic_entity.dx, 0);
}

#[test]
fn landing_on_a_platform_stops_the_fall() {
    let rs = rooms();
    let users: Vec<Option<User>> = vec![None];
    let mut u = User::new(0, 0, 0);
    u.dynamic_entity.entity.x = 480;
    u.dynamic_entity.entity.y = 1398;
    u.dynamic_entity.dy = 24;
    u.tick(&users, &rs);
    assert_eq!(u.dynamic_entity.entity.y, 1470 - USER_SIZE);
    // gravity is applied after the resolution
    assert_eq!(u.dynamic_entity.dy, 9);
    assert_eq!(u.coyote_ticks, COYOTE_TICKS);
}

#[test]
fn drop_through_consumes_the_flag_once() {
    let rs = rooms();
    let users: Vec<Option<User>> = vec![None];
    let mut u = User::new(0, 0, 0);
    u.dynamic_entity.entity.x = 480;
    u.dynamic_entity.entity.y = 1398;
    u.dynamic_entity.dy = 24;
    u.holding_down = true;
    u.tick(&users, &rs);
    // passed through and the request is spent
    assert_eq!(u.dynamic_entity.entity.y, 1398 + 24);
    assert!(!u.holding_down);
    // a fresh approach without the flag collides
    let mut again = User::new(0, 0, 0);
    again.dynamic_entity.entity.x = 480;
    again.dynamic_entity.entity.y = 1398;
    again.dynamic_entity.dy = 24;
    again.tick(&users, &rs);
    assert_eq!(again.dynamic_entity.entity.y, 1470 - USER_SIZE);
}

#[test]
fn buffered_jump_fires_on_landing() {
    let rs = rooms();
    let users: Vec<Option<User>> = vec![None];
    let mut u = User::new(0, 0, 0);
    u.dynamic_entity.entity.x = 480;
    u.dynamic_entity.entity.y = 1398;
    u.dynamic_entity.dy = 24;
    u.jump_buffer_ticks = 2;
    u.tick(&users, &rs);
    // the jump impulse replaced the landing, then gravity was added
    assert_eq!(u.dynamic_entity.dy, -80 + 9);
    assert_eq!(u.jump_buffer_ticks, 0);
    assert_eq!(u.coyote_ticks, 0);
}

#[test]
fn jump_buffer_expires_one_tick_at_a_time() {
    let rs = rooms();
    let users: Vec<Option<User>> = vec![None];
    let mut u = User::new(0, 0, 0);
    u.dynamic_entity.entity.x = 480;
    u.dynamic_entity.entity.y = 600;
    u.jump_buffer_ticks = JUMP_BUFFER_TICKS;
    for expect in (0..JUMP_BUFFER_TICKS).rev() {
        u.tick(&users, &rs);
        assert_eq!(u.jump_buffer_ticks, expect);
    }
    // issued longer ago than the window: landing does not jump
    u.dynamic_entity.entity.y = 1398;
    u.dynamic_entity.dy = 24;
    u.tick(&users, &rs);
    assert_eq!(u.dynamic_entity.dy, 9);
    assert_eq!(u.coyote_ticks, COYOTE_TICKS);
}

#[test]
fn door_collision_teleports_into_the_next_room() {
    let rs = rooms();
    let users: Vec<Option<User>> = vec![None];
    let mut u = User::new(0, 0, 0);
    // approaching the right-wall door of room 0 at x 1500
    u.dynamic_entity.entity.x = 1434;
    u.dynamic_entity.entity.y = 1400;
    u.dynamic_entity.dx = 12;
    u.tick(&users, &rs);
    assert_eq!(u.room_idx, 1);
    // placed just right of the paired door in room 1
    assert_eq!(u.dynamic_entity.entity.x, 30);
}

fn cycle_length(users: &Vec<Option<User>>, start: usize) -> usize {
    let mut seen = vec![];
    let mut cur = start;
    loop {
        if seen.contains(&cur) {
            break;
        }
        seen.push(cur);
        cur = users[cur].as_ref().expect("live").target_user_idx;
    }
    assert_eq!(cur, start, "walk returned into the middle of the path");
    seen.len()
}

#[test]
fn connect_keeps_a_single_cycle() {
    let mut g = Game::new();
    for n in 1..=5 {
        let idx = g.connect().expect("slot");
        assert!(idx < 5);
        let live = g.users.iter().filter(|u| u.is_some()).count();
        assert_eq!(live, n);
        assert_eq!(cycle_length(&g.users, idx), n);
    }
}

#[test]
fn disconnect_contracts_the_cycle() {
    let mut g = Game::new();
    for _ in 0..4 {
        g.connect().expect("slot");
    }
    g.disconnect(2);
    assert!(g.users[2].is_none());
    assert_eq!(cycle_length(&g.users, 0), 3);
    g.disconnect(0);
    assert_eq!(cycle_length(&g.users, 1), 2);
    // dropping an unknown or vacant slot is ignored
    g.disconnect(2);
    g.disconnect(77);
    assert_eq!(cycle_length(&g.users, 1), 2);
}

fn two_player_world() -> (Vec<Option<User>>, Vec<platformer_core::room::Room>) {
    let rs = rooms();
    let mut a = User::new(0, 0, 1);
    a.dynamic_entity.entity.x = 0;
    a.dynamic_entity.entity.y = 0;
    let mut b = User::new(1, 0, 0);
    b.dynamic_entity.entity.x = 600;
    b.dynamic_entity.entity.y = 0;
    (vec![Some(a), Some(b)], rs)
}

#[test]
fn bullet_eliminates_the_assigned_target() {
    let (mut users, rs) = two_player_world();
    let ray = Ray::from_entity_and_position(&users[0].as_ref().unwrap().dynamic_entity.entity, 630, 30);
    let b = Bullet {
        user_idx: 0,
        target_user_idx: 1,
        room_idx: 0,
        ray,
    };
    let path = b.tick(&mut users, &rs);
    // the trace ends at the far boundary of the victim's box
    assert_eq!((path.origin_x, path.origin_y), (30, 30));
    assert_eq!((path.end_x, path.end_y), (660, 30));
    // the victim respawned in its slot at the origin, back in the chain
    let nb = users[1].as_ref().expect("respawned");
    assert_eq!(nb.idx, 1);
    assert_eq!(nb.dynamic_entity.entity.x, 0);
    assert_eq!(nb.dynamic_entity.entity.y, 0);
    assert_eq!(nb.target_user_idx, 0);
    assert_eq!(users[0].as_ref().unwrap().target_user_idx, 1);
    assert_eq!(cycle_length(&users, 0), 2);
}

#[test]
fn bullet_spares_a_player_that_is_not_the_target() {
    let (mut users, rs) = two_player_world();
    // the shooter hunts someone else by the time the shot resolves, so the
    // struck player is not its current target
    users[0].as_mut().unwrap().target_user_idx = 0;
    let before = users.clone();
    let ray = Ray::from_entity_and_position(&users[0].as_ref().unwrap().dynamic_entity.entity, 630, 30);
    let b = Bullet {
        user_idx: 0,
        target_user_idx: 1,
        room_idx: 0,
        ray,
    };
    let path = b.tick(&mut users, &rs);
    // a trace is still produced, but nobody moves or retargets
    assert_eq!((path.end_x, path.end_y), (660, 30));
    for (l, r) in users.iter().zip(before.iter()) {
        match (l, r) {
            (Some(a), Some(b)) => {
                assert_eq!(a.target_user_idx, b.target_user_idx);
                assert_eq!(a.dynamic_entity.entity.x, b.dynamic_entity.entity.x);
            }
            (None, None) => {}
            _ => panic!("liveness changed"),
        }
    }
}

#[test]
fn bullet_that_misses_keeps_the_world() {
    let (mut users, rs) = two_player_world();
    let ray = Ray {
        origin_x: 30,
        origin_y: 30,
        direction_x: -100,
        direction_y: 0,
    };
    let b = Bullet {
        user_idx: 0,
        target_user_idx: 1,
        room_idx: 0,
        ray,
    };
    let path = b.tick(&mut users, &rs);
    assert!(users[1].is_some());
    assert_eq!(users[1].as_ref().unwrap().dynamic_entity.entity.x, 600);
    // default-length trace away from everything
    assert_eq!(path.end_x, 30 - 1200);
    assert_eq!(path.end_y, 30);
}

#[test]
fn clicks_enqueue_bullets_and_ticks_resolve_them() {
    let mut g = Game::new();
    let a = g.connect().expect("a");
    let b = g.connect().expect("b");
    // separate the two players horizontally
    if let Some(u) = g.users[b].as_mut() {
        u.dynamic_entity.entity.x = 600;
    }
    g.apply_input(a, Input::Click { x: 630, y: 30 });
    assert_eq!(g.rooms_mut[0].bullets.len(), 1);
    assert!(g.tick());
    assert_eq!(g.rooms_mut[0].bullets.len(), 0);
    assert_eq!(g.rooms_mut[0].bullet_paths.len(), 1);
    assert_eq!(cycle_length(&g.users, 0), 2);
    g.clear_tick_output();
    assert_eq!(g.rooms_mut[0].bullet_paths.len(), 0);
    assert!(g.rooms_to_render.is_empty());
}

#[test]
fn input_toggles_are_applied_and_invalid_ones_dropped() {
    let mut g = Game::new();
    let a = g.connect().expect("a");
    g.apply_input(a, Input::RightStart);
    assert!(g.users[a].as_ref().unwrap().holding_right);
    g.apply_input(a, Input::RightEnd);
    assert!(!g.users[a].as_ref().unwrap().holding_right);
    g.apply_input(a, Input::UpStart);
    assert_eq!(g.users[a].as_ref().unwrap().jump_buffer_ticks, JUMP_BUFFER_TICKS);
    let before = g.users.clone();
    g.apply_input(9, Input::LeftStart);
    for (l, r) in g.users.iter().zip(before.iter()) {
        assert_eq!(l.is_some(), r.is_some());
    }
}

#[test]
fn gravity_accumulates_between_ticks() {
    let mut g = Game::new();
    let a = g.connect().expect("a");
    assert!(g.tick());
    // a fresh player starts still at the origin; after one tick it has
    // only gained gravity
    let u = g.users[a].as_ref().unwrap();
    assert_eq!(u.dynamic_entity.entity.y, 0);
    assert_eq!(u.dynamic_entity.dy, 9);
    assert!(g.tick());
    let u = g.users[a].as_ref().unwrap();
    assert_eq!(u.dynamic_entity.entity.y, 9);
    assert_eq!(u.dynamic_entity.dy, 18);
}

#[test]
fn end_jump_halves_the_rise() {
    let mut g = Game::new();
    let a = g.connect().expect("a");
    if let Some(u) = g.users[a].as_mut() {
        u.dynamic_entity.dy = -81;
    }
    g.apply_input(a, Input::UpEnd);
    assert_eq!(g.users[a].as_ref().unwrap().dynamic_entity.dy, -40);
}

#[test]
fn eliminations_preserve_the_cycle_among_many() {
    let (mut users, rs) = two_player_world();
    users.push(Some({
        let mut c = User::new(2, 0, 0);
        c.dynamic_entity.entity.x = 1200;
        c.dynamic_entity.entity.y = 600;
        c
    }));
    // rebuild a 3-cycle: 0 -> 1 -> 2 -> 0
    users[1].as_mut().unwrap().target_user_idx = 2;
    users[2].as_mut().unwrap().target_user_idx = 0;
    let ray = Ray::from_entity_and_position(&users[0].as_ref().unwrap().dynamic_entity.entity, 630, 30);
    let b = Bullet {
        user_idx: 0,
        target_user_idx: 1,
        room_idx: 0,
        ray,
    };
    b.tick(&mut users, &rs);
    assert!(users[1].is_some());
    assert_eq!(cycle_length(&users, 0), 3);
}

#[test]
fn intersection_variant_distinguishes_players_from_platforms() {
    let user_hit = IntersectionVariant::User(3);
    let platform_hit = IntersectionVariant::Platform;
    assert_ne!(user_hit, platform_hit);
    assert_eq!(user_hit, IntersectionVariant::User(3));
}
