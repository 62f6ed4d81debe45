use vstd::prelude::*;
use vstd::pervasive::VecAdditionalExecFns;
use crate::bullet::{bullet_applied, is_bullet_path, Bullet, BulletPath};
use crate::chain::{
    chain_ok, is_cycle_witness, lemma_chain_join, lemma_chain_ok_when_none, lemma_chain_remove,
    lemma_chain_remove_sole, lemma_chain_same_shape, lemma_mod_basics, live, no_live,
    splice_source, target_of, targets,
};
use crate::input::Input;
use crate::ray::Ray;
use crate::room::{rooms, rooms_mut, wf_rooms, Room, RoomMut};
use crate::user::{
    lemma_tick_spec_links, rooms_indexed, spec_end_jump, spec_new_user, state_bounded, tick_spec,
    users_wf_bounded, User, CHECK_LIMIT, JUMP_BUFFER_TICKS, SCAN_LIMIT, TICK_SLACK,
};

verus! {

/// Milliseconds between two ticks of the fixed-period timer.
pub const TICK_DT: u64 = 16;

/// Largest number of concurrent players: the index space is a single byte.
pub const MAX_PLAYERS: usize = 255;

/// The whole simulation state: the static room table, one slot per player
/// (vacant slots are reusable handles), per-room scratch, and the rooms to
/// hand to rendering this tick.
pub struct Game {
    pub users: Vec<Option<User>>,
    pub rooms: Vec<Room>,
    pub rooms_mut: Vec<RoomMut>,
    pub rooms_to_render: Vec<usize>,
}

/// The ray of a click: from the player's center toward the click point.
pub open spec fn spec_click_ray(u: User, x: i64, y: i64) -> Ray {
    let ox = u.dynamic_entity.entity.x + u.dynamic_entity.entity.width as int / 2;
    let oy = u.dynamic_entity.entity.y + u.dynamic_entity.entity.height as int / 2;
    Ray { origin_x: ox as i64, origin_y: oy as i64, direction_x: (x - ox) as i64, direction_y: (y
        - oy) as i64 }
}

/// The bullet a click by the player in slot `idx` enqueues.
pub open spec fn spec_click_bullet(u: User, idx: usize, x: i64, y: i64) -> Bullet {
    Bullet {
        user_idx: idx,
        target_user_idx: u.target_user_idx,
        room_idx: u.room_idx,
        ray: spec_click_ray(u, x, y),
    }
}

/// One bullet appended to the scratch of room `ri`, everything else as it
/// was.
pub open spec fn bullets_pushed(pre: Seq<RoomMut>, post: Seq<RoomMut>, ri: int, b: Bullet) -> bool {
    &&& post.len() == pre.len()
    &&& forall|r: int| 0 <= r < pre.len() && r != ri ==> post[r] == pre[r]
    &&& post[ri].bullets@ == pre[ri].bullets@.push(b)
    &&& post[ri].bullet_paths@ == pre[ri].bullet_paths@
}

/// The world after a join at slot `idx`: a fresh player in that slot, in
/// room zero, spliced into the target chain after some live player, which
/// handed over its old target. With nobody live the sole newcomer takes
/// slot zero and targets itself.
#[verifier::opaque]
pub open spec fn spec_joined(pre: Seq<Option<User>>, post: Seq<Option<User>>, idx: int) -> bool {
    let base = if idx < pre.len() {
        pre
    } else {
        pre.push(None)
    };
    if no_live(pre) {
        idx == 0 && post == base.update(idx, Some(spec_new_user(idx as u8, 0, 0)))
    } else {
        exists|k: int, t: usize|
            #![trigger live(pre, k), spec_new_user(idx as u8, 0, t)]
            {
                &&& live(pre, k)
                &&& t as int == target_of(pre, k)
                &&& post == base.update(
                    k,
                    Some(User { target_user_idx: idx as usize, ..(pre[k]->0) }),
                ).update(idx, Some(spec_new_user(idx as u8, 0, t)))
            }
    }
}

/// The world after the live player in slot `idx` left: its lowest live
/// predecessor in the target relation (under the chain invariant, its only
/// one) absorbs its outgoing link, the slot becomes vacant, and nothing
/// else changes. A self-targeting or untargeted player just vacates.
pub open spec fn spec_unlinked(pre: Seq<Option<User>>, post: Seq<Option<User>>, idx: int) -> bool {
    let d = pre[idx]->0;
    if d.target_user_idx as int == idx || (forall|p: int| !targets(pre, p, idx)) {
        post == pre.update(idx, None)
    } else {
        exists|p: int|
            {
                &&& targets(pre, p, idx)
                &&& forall|q: int| 0 <= q < p ==> !targets(pre, q, idx)
                &&& post == pre.update(
                    p,
                    Some(User { target_user_idx: d.target_user_idx, ..(pre[p]->0) }),
                ).update(idx, None)
            }
    }
}

/// One room's pending bullets resolved in order: bullet `i` acts on the
/// slots as bullets `0..i` left them, and path `i` is its trace against
/// that same state.
pub open spec fn bullets_resolved(
    pre: Seq<Option<User>>,
    post: Seq<Option<User>>,
    bullets: Seq<Bullet>,
    paths: Seq<BulletPath>,
    rooms: Seq<Room>,
) -> bool
    decreases bullets.len(),
{
    if bullets.len() == 0 {
        post == pre && paths.len() == 0
    } else {
        paths.len() == bullets.len() && exists|mid: Seq<Option<User>>|
            {
                &&& bullets_resolved(pre, mid, bullets.drop_last(), paths.drop_last(), rooms)
                &&& bullet_applied(mid, post, bullets.last(), rooms)
                &&& is_bullet_path(paths.last(), bullets.last(), mid, rooms)
            }
    }
}

/// The first `r` rooms' scratches drained in room order: each room's
/// pending bullets resolved against the slots the earlier rooms left, and
/// its traces appended to its scratch.
pub open spec fn rooms_resolved_to(
    pre_u: Seq<Option<User>>,
    post_u: Seq<Option<User>>,
    pre_rm: Seq<RoomMut>,
    post_rm: Seq<RoomMut>,
    rooms: Seq<Room>,
    r: int,
) -> bool
    decreases r,
{
    if r <= 0 {
        post_u == pre_u
    } else {
        exists|mid: Seq<Option<User>>, paths: Seq<BulletPath>|
            #![trigger bullets_resolved(mid, post_u, pre_rm[r - 1].bullets@, paths, rooms)]
            {
                &&& rooms_resolved_to(pre_u, mid, pre_rm, post_rm, rooms, r - 1)
                &&& bullets_resolved(mid, post_u, pre_rm[r - 1].bullets@, paths, rooms)
                &&& post_rm[r - 1].bullet_paths@ == pre_rm[r - 1].bullet_paths@ + paths
            }
    }
}

/// The slots after integrating players `0..i` in ascending order: each
/// live player ticked against the slots as they stood when its turn came,
/// earlier slots already in their current-tick state and later ones still
/// in their previous-tick state.
pub open spec fn integrate_to(pre: Seq<Option<User>>, rooms: Seq<Room>, i: int) -> Seq<
    Option<User>,
>
    decreases i,
{
    if i <= 0 {
        pre
    } else {
        let w = integrate_to(pre, rooms, i - 1);
        match w[i - 1] {
            None => w,
            Some(u) => w.update(i - 1, Some(tick_spec(u, w, rooms))),
        }
    }
}

/// The rooms recorded for rendering while integrating players `0..i`: the
/// pre-integration room of each live slot, in ascending slot order.
pub open spec fn render_to(pre: Seq<Option<User>>, rooms: Seq<Room>, i: int) -> Seq<usize>
    decreases i,
{
    if i <= 0 {
        Seq::empty()
    } else {
        let w = integrate_to(pre, rooms, i - 1);
        match w[i - 1] {
            None => render_to(pre, rooms, i - 1),
            Some(u) => render_to(pre, rooms, i - 1).push(u.room_idx),
        }
    }
}

/// A splice at `k` followed by the newcomer filling slot `idx` is exactly
/// the join relation.
proof fn lemma_joined_witness(
    pre: Seq<Option<User>>,
    mid: Seq<Option<User>>,
    post: Seq<Option<User>>,
    k: int,
    idx: usize,
    t: usize,
)
    requires
        idx <= pre.len(),
        (idx as int) < pre.len() ==> pre[idx as int] is None,
        !no_live(pre),
        splice_source(pre, mid, k, idx, t),
        post == (if (idx as int) < pre.len() {
            mid.update(idx as int, Some(spec_new_user(idx as u8, 0, t)))
        } else {
            mid.push(Some(spec_new_user(idx as u8, 0, t)))
        }),
    ensures
        spec_joined(pre, post, idx as int),
{
    reveal(spec_joined);
    let base = if (idx as int) < pre.len() {
        pre
    } else {
        pre.push(None)
    };
    let tgt = base.update(k, Some(User { target_user_idx: idx, ..(pre[k]->0) })).update(
        idx as int,
        Some(spec_new_user(idx as u8, 0, t)),
    );
    assert(post =~= tgt);
    assert(spec_joined(pre, post, idx as int));
}

/// Everything a join leaves behind, over the two world values: `mid` is
/// the slots as `User::get_target_idx` left them, and the second world
/// holds the fresh player in slot `idx` on top of that.
#[verifier::rlimit(100)]
#[verifier::spinoff_prover]
proof fn lemma_install_post(g1: Game, g2: Game, mid: Seq<Option<User>>, idx: usize, target: usize)
    requires
        g1.wf(),
        idx <= g1.users@.len(),
        idx < MAX_PLAYERS,
        (idx as int) < g1.users@.len() ==> g1.users@[idx as int] is None,
        forall|j: int| 0 <= j < idx ==> g1.users@[j] is Some,
        no_live(g1.users@) ==> target == 0 && mid == g1.users@,
        !no_live(g1.users@) ==> exists|k: int|
            splice_source(g1.users@, mid, k, idx, target),
        g2.rooms == g1.rooms,
        g2.rooms_mut == g1.rooms_mut,
        g2.rooms_to_render == g1.rooms_to_render,
        g2.users@ == (if (idx as int) < g1.users@.len() {
            mid.update(idx as int, Some(spec_new_user(idx as u8, 0, target)))
        } else {
            mid.push(Some(spec_new_user(idx as u8, 0, target)))
        }),
    ensures
        g2.wf(),
        g2.users@.len() == (if (idx as int) < g1.users@.len() {
            g1.users@.len() as int
        } else {
            g1.users@.len() as int + 1
        }),
        g2.users@[idx as int] is Some,
        spec_joined(g1.users@, g2.users@, idx as int),
        chain_ok(g1.users@) ==> chain_ok(g2.users@),
{
    let pre = g1.users@;
    if no_live(pre) {
        // everyone vacant: the lowest vacant slot is slot zero, and the
        // newcomer self-targets it
        assert(idx == 0) by {
            if idx > 0 {
                assert(pre[0] is Some);
                assert(live(pre, 0));
            }
        }
        lemma_joined_sole(pre, g2.users@);
    } else {
        let k = choose|k: int| splice_source(pre, mid, k, idx, target);
        lemma_joined_witness(pre, mid, g2.users@, k, idx, target);
        if chain_ok(pre) {
            lemma_chain_join(pre, g2.users@, k, idx as int);
        }
        assert forall|i: int|
            0 <= i < g2.users@.len() && g2.users@[i] is Some implies ((#[trigger] g2.users@[
            i
        ])->0).wf() && state_bounded((g2.users@[i])->0, SCAN_LIMIT as int) && ((
        g2.users@[i])->0).room_idx < g2.rooms@.len() by {
            if i == idx as int {
                assert(g2.users@[i] == Some(spec_new_user(idx as u8, 0, target)));
            } else if i == k {
                assert((g2.users@[i]->0).dynamic_entity == (pre[i]->0).dynamic_entity);
                assert((g2.users@[i]->0).room_idx == (pre[i]->0).room_idx);
            } else {
                assert(g2.users@[i] == pre[i]);
            }
        }
    }
}

/// Extending a resolved run of bullets by one more resolved bullet.
proof fn lemma_bullets_resolved_push(
    pre: Seq<Option<User>>,
    mid: Seq<Option<User>>,
    post: Seq<Option<User>>,
    bullets: Seq<Bullet>,
    paths: Seq<BulletPath>,
    b: Bullet,
    p: BulletPath,
    rooms: Seq<Room>,
)
    requires
        bullets_resolved(pre, mid, bullets, paths, rooms),
        bullet_applied(mid, post, b, rooms),
        is_bullet_path(p, b, mid, rooms),
    ensures
        bullets_resolved(pre, post, bullets.push(b), paths.push(p), rooms),
{
    assert(bullets.push(b).drop_last() =~= bullets);
    assert(paths.push(p).drop_last() =~= paths);
    assert(bullets.push(b).last() == b);
    assert(paths.push(p).last() == p);
}

/// The resolved-rooms relation only reads the first `r` post scratches.
proof fn lemma_rooms_resolved_frame(
    pre_u: Seq<Option<User>>,
    post_u: Seq<Option<User>>,
    pre_rm: Seq<RoomMut>,
    rm1: Seq<RoomMut>,
    rm2: Seq<RoomMut>,
    rooms: Seq<Room>,
    r: int,
)
    requires
        rooms_resolved_to(pre_u, post_u, pre_rm, rm1, rooms, r),
        forall|j: int| 0 <= j < r ==> rm2[j] == rm1[j],
    ensures
        rooms_resolved_to(pre_u, post_u, pre_rm, rm2, rooms, r),
    decreases r,
{
    if r > 0 {
        let (mid, paths) = choose|mid: Seq<Option<User>>, paths: Seq<BulletPath>|
            #![trigger bullets_resolved(mid, post_u, pre_rm[r - 1].bullets@, paths, rooms)]
            {
                &&& rooms_resolved_to(pre_u, mid, pre_rm, rm1, rooms, r - 1)
                &&& bullets_resolved(mid, post_u, pre_rm[r - 1].bullets@, paths, rooms)
                &&& rm1[r - 1].bullet_paths@ == pre_rm[r - 1].bullet_paths@ + paths
            };
        lemma_rooms_resolved_frame(pre_u, mid, pre_rm, rm1, rm2, rooms, r - 1);
        assert(rm2[r - 1] == rm1[r - 1]);
        assert(rooms_resolved_to(pre_u, post_u, pre_rm, rm2, rooms, r));
    }
}

/// Draining one more room extends the resolved prefix by one.
proof fn lemma_rooms_resolved_step(
    pre_u: Seq<Option<User>>,
    mid_u: Seq<Option<User>>,
    post_u: Seq<Option<User>>,
    pre_rm: Seq<RoomMut>,
    post_rm: Seq<RoomMut>,
    paths: Seq<BulletPath>,
    rooms: Seq<Room>,
    r: int,
)
    requires
        0 <= r,
        rooms_resolved_to(pre_u, mid_u, pre_rm, post_rm, rooms, r),
        bullets_resolved(mid_u, post_u, pre_rm[r].bullets@, paths, rooms),
        post_rm[r].bullet_paths@ == pre_rm[r].bullet_paths@ + paths,
    ensures
        rooms_resolved_to(pre_u, post_u, pre_rm, post_rm, rooms, r + 1),
{
    let rr = r + 1;
    assert(rooms_resolved_to(pre_u, mid_u, pre_rm, post_rm, rooms, rr - 1));
    assert(bullets_resolved(mid_u, post_u, pre_rm[rr - 1].bullets@, paths, rooms));
    assert(post_rm[rr - 1].bullet_paths@ == pre_rm[rr - 1].bullet_paths@ + paths);
    assert(rooms_resolved_to(pre_u, post_u, pre_rm, post_rm, rooms, rr));
}

/// A newcomer in slot zero of a world with nobody live: the join relation
/// holds and the one-player chain is a cycle.
proof fn lemma_joined_sole(pre: Seq<Option<User>>, post: Seq<Option<User>>)
    requires
        no_live(pre),
        pre.len() > 0 ==> post == pre.update(0, Some(spec_new_user(0, 0, 0))),
        pre.len() == 0 ==> post == pre.push(Some(spec_new_user(0, 0, 0))),
    ensures
        spec_joined(pre, post, 0),
        chain_ok(post),
{
    reveal(spec_joined);
    let base = if 0 < pre.len() {
        pre
    } else {
        pre.push(None)
    };
    let tgt = base.update(0, Some(spec_new_user(0, 0, 0)));
    assert(post =~= tgt);
    assert(post == tgt);
    let s = seq![0int];
    lemma_mod_basics(1, 1);
    assert forall|i: int| live(post, i) implies s.contains(i) by {
        if i != 0 {
            assert(live(pre, i));
            assert(false);
        }
        assert(s[0] == i);
    }
    assert(is_cycle_witness(post, s));
}

/// The slot update an input toggle performs on a live player.
pub open spec fn spec_toggle(u: User, input: Input) -> User {
    match input {
        Input::UpStart => User { jump_buffer_ticks: JUMP_BUFFER_TICKS, ..u },
        Input::UpEnd => spec_end_jump(u),
        Input::DownStart => User { holding_down: true, ..u },
        Input::DownEnd => User { holding_down: false, ..u },
        Input::LeftStart => User { holding_left: true, ..u },
        Input::LeftEnd => User { holding_left: false, ..u },
        Input::RightStart => User { holding_right: true, ..u },
        Input::RightEnd => User { holding_right: false, ..u },
        Input::Click { .. } => u,
    }
}

impl Game {
    /// Everything the engine relies on between operations, except the
    /// target-chain invariant, which is tracked separately.
    pub open spec fn wf(self) -> bool {
        &&& wf_rooms(self.rooms@)
        &&& self.rooms@.len() >= 1
        &&& self.rooms_mut@.len() == self.rooms@.len()
        &&& self.users@.len() <= MAX_PLAYERS
        &&& users_wf_bounded(self.users@, SCAN_LIMIT as int)
        &&& forall|i: int|
            live(self.users@, i) ==> ((#[trigger] self.users@[i])->0).room_idx < self.rooms@.len()
        &&& forall|r: int, b: int|
            0 <= r < self.rooms_mut@.len() && 0 <= b < self.rooms_mut@[r].bullets@.len() ==> {
                let blt = #[trigger] self.rooms_mut@[r].bullets@[b];
                &&& blt.user_idx < self.users@.len()
                &&& blt.room_idx < self.rooms@.len()
                &&& blt.ray.wf()
            }
    }

    /// A fresh world over the stock room table, with no players.
    pub fn new() -> (g: Game)
        ensures
            g.wf(),
            chain_ok(g.users@),
            g.users@.len() == 0,
            g.rooms_to_render@.len() == 0,
    {
        let g = Game {
            users: Vec::new(),
            rooms: rooms(),
            rooms_mut: rooms_mut(),
            rooms_to_render: Vec::new(),
        };
        proof {
            lemma_chain_ok_when_none(g.users@);
        }
        g
    }

    /// Assign the lowest vacant slot (or append one) to a joining player,
    /// splice it into the target chain, and return its index; a full world
    /// refuses the connection. A sole player targets its own slot.
    #[verifier::rlimit(100)]
    #[verifier::spinoff_prover]
    pub fn connect(&mut self) -> (r: Option<usize>)
        requires
            old(self).wf(),
        ensures
            final(self).wf(),
            final(self).rooms == old(self).rooms,
            final(self).rooms_mut == old(self).rooms_mut,
            r is Some <==> ((exists|i: int|
                0 <= i < old(self).users@.len() && old(self).users@[i] is None) || old(
                self,
            ).users@.len() < MAX_PLAYERS),
            r is None ==> *final(self) == *old(self),
            r matches Some(idx) ==> {
                &&& idx <= old(self).users@.len()
                &&& forall|j: int| 0 <= j < idx ==> old(self).users@[j] is Some
                &&& !live(old(self).users@, idx as int)
                &&& final(self).users@.len() == (if (idx as int) < old(self).users@.len() {
                    old(self).users@.len() as int
                } else {
                    old(self).users@.len() as int + 1
                })
                &&& final(self).users@[idx as int] is Some
                &&& spec_joined(old(self).users@, final(self).users@, idx as int)
            },
            chain_ok(old(self).users@) ==> chain_ok(final(self).users@),
    {
        let ghost pre = self.users@;
        let mut idx_opt: Option<usize> = None;
        let mut i: usize = 0;
        while i < self.users.len()
            invariant
                0 <= i <= self.users@.len(),
                self.users@ == pre,
                match idx_opt {
                    None => forall|j: int| 0 <= j < i ==> pre[j] is Some,
                    Some(v) => v < pre.len() && pre[v as int] is None && forall|j: int|
                        0 <= j < v ==> pre[j] is Some,
                },
            decreases self.users@.len() - i,
        {
            if idx_opt.is_none() {
                match self.users[i] {
                    None => {
                        idx_opt = Some(i);
                    },
                    Some(_) => {},
                }
            }
            i = i + 1;
        }
        let idx: usize = match idx_opt {
            Some(v) => v,
            None => {
                if self.users.len() >= MAX_PLAYERS {
                    proof {
                        assert(forall|t: int| 0 <= t < pre.len() ==> pre[t] is Some);
                    }
                    return None;
                }
                self.users.len()
            },
        };
        proof {
            assert(!live(pre, idx as int));
        }
        self.install_user(idx);
        Some(idx)
    }

    /// Install a fresh player in the vacant slot `idx` (appending the slot
    /// when `idx` is one past the end) and splice it into the target chain.
    #[verifier::rlimit(100)]
    #[verifier::spinoff_prover]
    fn install_user(&mut self, idx: usize)
        requires
            old(self).wf(),
            idx <= old(self).users@.len(),
            idx < MAX_PLAYERS,
            (idx as int) < old(self).users@.len() ==> old(self).users@[idx as int] is None,
            forall|j: int| 0 <= j < idx ==> old(self).users@[j] is Some,
        ensures
            final(self).wf(),
            final(self).rooms == old(self).rooms,
            final(self).rooms_mut == old(self).rooms_mut,
            final(self).rooms_to_render == old(self).rooms_to_render,
            final(self).users@.len() == (if (idx as int) < old(self).users@.len() {
                old(self).users@.len() as int
            } else {
                old(self).users@.len() as int + 1
            }),
            final(self).users@[idx as int] is Some,
            spec_joined(old(self).users@, final(self).users@, idx as int),
            chain_ok(old(self).users@) ==> chain_ok(final(self).users@),
    {
        let target: usize = User::get_target_idx(&mut self.users, idx);
        let ghost mid = self.users@;
        let nu: User = User::new(idx as u8, 0, target);
        if idx < self.users.len() {
            self.users.set(idx, Some(nu));
        } else {
            self.users.push(Some(nu));
        }
        proof {
            lemma_install_post(*old(self), *self, mid, idx, target);
        }
    }

    /// Drop the player in slot `idx` (a closed connection): its predecessor
    /// in the target chain absorbs its outgoing link, exactly as an
    /// elimination contracts the chain, and the slot becomes vacant. An
    /// invalid or vacant index is silently ignored.
    #[verifier::rlimit(100)]
    #[verifier::spinoff_prover]
    pub fn disconnect(&mut self, idx: usize)
        requires
            old(self).wf(),
        ensures
            final(self).wf(),
            final(self).rooms == old(self).rooms,
            final(self).rooms_mut == old(self).rooms_mut,
            final(self).users@.len() == old(self).users@.len(),
            idx < old(self).users@.len() ==> final(self).users@[idx as int] is None,
            (idx >= old(self).users@.len() || old(self).users@[idx as int] is None)
                ==> *final(self) == *old(self),
            idx < old(self).users@.len() && old(self).users@[idx as int] is Some ==> spec_unlinked(
                old(self).users@,
                final(self).users@,
                idx as int,
            ),
            chain_ok(old(self).users@) ==> chain_ok(final(self).users@),
    {
        let ghost pre = self.users@;
        if idx >= self.users.len() {
            proof {
                assert(idx >= pre.len());
            }
            return ;
        }
        let d: User = match self.users[idx] {
            Some(u) => u,
            None => {
                return ;
            },
        };
        if d.target_user_idx == idx {
            self.users.set(idx, None);
            proof {
                assert(spec_unlinked(pre, self.users@, idx as int));
                if chain_ok(pre) {
                    lemma_chain_remove_sole(pre, self.users@, idx as int);
                }
            }
            return ;
        }
        let mut j: usize = 0;
        let mut found: Option<usize> = None;
        while j < self.users.len()
            invariant
                0 <= j <= self.users@.len(),
                self.users@ == pre,
                match found {
                    None => forall|t: int| 0 <= t < j ==> !targets(pre, t, idx as int),
                    Some(f) => targets(pre, f as int, idx as int) && forall|t: int|
                        0 <= t < f ==> !targets(pre, t, idx as int),
                },
            decreases self.users@.len() - j,
        {
            if found.is_none() {
                match self.users[j] {
                    Some(u) => {
                        if u.target_user_idx == idx {
                            found = Some(j);
                        }
                    },
                    None => {},
                }
            }
            j = j + 1;
        }
        match found {
            Some(p) => {
                let pu: User = match self.users[p] {
                    Some(u) => u,
                    None => unreached(),
                };
                self.users.set(p, Some(User { target_user_idx: d.target_user_idx, ..pu }));
                self.users.set(idx, None);
                proof {
                    assert(targets(pre, p as int, idx as int));
                    assert(self.users@ == pre.update(
                        p as int,
                        Some(User { target_user_idx: d.target_user_idx, ..(pre[p as int]->0) }),
                    ).update(idx as int, None));
                    assert(spec_unlinked(pre, self.users@, idx as int));
                    if chain_ok(pre) {
                        // p is live and targets idx, and idx does not target
                        // itself, so p != idx
                        assert(p != idx);
                        lemma_chain_remove(pre, self.users@, p as int, idx as int);
                    }
                }
            },
            None => {
                self.users.set(idx, None);
                proof {
                    assert forall|t: int| !targets(pre, t, idx as int) by {
                        if 0 <= t < pre.len() {
                            assert(!targets(pre, t, idx as int));
                        }
                    }
                    assert(spec_unlinked(pre, self.users@, idx as int));
                    // under the invariant a live player always has a
                    // predecessor, so this branch refutes it
                    if chain_ok(pre) {
                        let s = choose|s: Seq<int>| is_cycle_witness(pre, s);
                        assert(s.contains(idx as int));
                        let p = choose|q: int| 0 <= q < s.len() && s[q] == idx as int;
                        let n = s.len() as int;
                        let q = if p == 0 {
                            n - 1
                        } else {
                            p - 1
                        };
                        lemma_mod_basics(q + 1, n);
                        assert(target_of(pre, s[q]) == s[(q + 1) % n]);
                        assert((q + 1) % n == p);
                        assert(live(pre, s[q]) && target_of(pre, s[q]) == idx as int);
                        assert(targets(pre, s[q], idx as int));
                        assert(false);
                    }
                }
            },
        }
    }

    /// Apply one decoded input to the player in slot `idx`: the movement
    /// and jump keys toggle state at once; a click enqueues a bullet into
    /// the player's room. Invalid indices, vacant slots and out-of-range
    /// click coordinates are silently dropped.
    #[verifier::rlimit(100)]
    #[verifier::spinoff_prover]
    pub fn apply_input(&mut self, idx: usize, input: Input)
        requires
            old(self).wf(),
        ensures
            final(self).wf(),
            final(self).rooms == old(self).rooms,
            final(self).users@.len() == old(self).users@.len(),
            chain_ok(old(self).users@) ==> chain_ok(final(self).users@),
            (idx >= old(self).users@.len() || old(self).users@[idx as int] is None)
                ==> *final(self) == *old(self),
            idx < old(self).users@.len() && old(self).users@[idx as int] is Some ==> {
                let u = old(self).users@[idx as int]->0;
                match input {
                    Input::Click { x, y } => {
                        &&& final(self).users == old(self).users
                        &&& if 0 <= x <= 0x40_0000 && 0 <= y <= 0x40_0000 {
                            bullets_pushed(
                                old(self).rooms_mut@,
                                final(self).rooms_mut@,
                                u.room_idx as int,
                                spec_click_bullet(u, idx, x, y),
                            )
                        } else {
                            *final(self) == *old(self)
                        }
                    },
                    _ => {
                        &&& final(self).rooms_mut == old(self).rooms_mut
                        &&& final(self).users@ == old(self).users@.update(
                            idx as int,
                            Some(spec_toggle(u, input)),
                        )
                    },
                }
            },
    {
        let ghost pre = self.users@;
        if idx >= self.users.len() {
            return ;
        }
        let u: User = match self.users[idx] {
            Some(u) => u,
            None => {
                return ;
            },
        };
        if let Input::Click { x, y } = input {
            if 0 <= x && x <= 0x40_0000 && 0 <= y && y <= 0x40_0000 {
                let ray: Ray = Ray::from_entity_and_position(&u.dynamic_entity.entity, x, y);
                let bullet = Bullet {
                    user_idx: idx,
                    target_user_idx: u.target_user_idx,
                    room_idx: u.room_idx,
                    ray,
                };
                let mut rm: RoomMut = RoomMut::new();
                self.rooms_mut.set_and_swap(u.room_idx, &mut rm);
                rm.bullets.push(bullet);
                self.rooms_mut.set_and_swap(u.room_idx, &mut rm);
                proof {
                    assert(bullets_pushed(
                        old(self).rooms_mut@,
                        self.rooms_mut@,
                        u.room_idx as int,
                        spec_click_bullet(u, idx, x, y),
                    ));
                }
            }
            return ;
        }
        let nu: User = match input {
            Input::UpStart => User { jump_buffer_ticks: JUMP_BUFFER_TICKS, ..u },
            Input::UpEnd => {
                let mut n: User = u;
                n.end_jump();
                n
            },
            Input::DownStart => User { holding_down: true, ..u },
            Input::DownEnd => User { holding_down: false, ..u },
            Input::LeftStart => User { holding_left: true, ..u },
            Input::LeftEnd => User { holding_left: false, ..u },
            Input::RightStart => User { holding_right: true, ..u },
            Input::RightEnd => User { holding_right: false, ..u },
            Input::Click { .. } => unreached(),
        };
        proof {
            assert(nu == spec_toggle(u, input));
            assert(nu.wf()) by {
                assert(u.wf());
            }
            assert(state_bounded(nu, SCAN_LIMIT as int)) by {
                assert(state_bounded(u, SCAN_LIMIT as int));
                assert(-SCAN_LIMIT <= crate::frac::div_trunc(
                    u.dynamic_entity.dy as int,
                    2,
                ) <= SCAN_LIMIT) by (nonlinear_arith)
                    requires
                        -SCAN_LIMIT <= u.dynamic_entity.dy <= SCAN_LIMIT,
                ;
            }
        }
        self.users.set(idx, Some(nu));
        proof {
            if chain_ok(pre) {
                lemma_chain_same_shape(pre, self.users@);
            }
        }
    }

    /// One full tick: check every player's geometry, resolve every pending
    /// bullet room by room in room order, then integrate every live player
    /// in ascending slot order — each seeing the already-updated state of
    /// earlier slots and the pre-tick state of later ones — recording each
    /// integrated player's room for rendering, in that same order. Returns
    /// false, changing nothing, exactly when some player's state lies
    /// outside the accepted limits: malformed geometry is a fatal invariant
    /// violation, not a recoverable error. A tick of an empty world changes
    /// nothing.
    #[verifier::rlimit(100)]
    #[verifier::spinoff_prover]
    pub fn tick(&mut self) -> (healthy: bool)
        requires
            old(self).wf(),
        ensures
            final(self).wf(),
            final(self).rooms == old(self).rooms,
            healthy <==> (forall|i: int|
                0 <= i < old(self).users@.len() && old(self).users@[i] is Some ==> ((
                #[trigger] old(self).users@[i])->0).in_limits()),
            !healthy ==> *final(self) == *old(self),
            old(self).users@.len() == 0 ==> *final(self) == *old(self),
            healthy ==> final(self).users@.len() == old(self).users@.len(),
            healthy ==> forall|r: int|
                0 <= r < final(self).rooms_mut@.len() ==> (#[trigger] final(self).rooms_mut@[
                    r
                ]).bullets@.len() == 0,
            chain_ok(old(self).users@) ==> chain_ok(final(self).users@),
            healthy && old(self).users@.len() > 0 ==> exists|mid: Seq<Option<User>>|
                #![trigger integrate_to(mid, old(self).rooms@, old(self).users@.len() as int)]
                {
                    &&& mid.len() == old(self).users@.len()
                    &&& rooms_resolved_to(
                        old(self).users@,
                        mid,
                        old(self).rooms_mut@,
                        final(self).rooms_mut@,
                        old(self).rooms@,
                        old(self).rooms_mut@.len() as int,
                    )
                    &&& final(self).users@ == integrate_to(
                        mid,
                        old(self).rooms@,
                        old(self).users@.len() as int,
                    )
                    &&& final(self).rooms_to_render@ == old(self).rooms_to_render@ + render_to(
                        mid,
                        old(self).rooms@,
                        old(self).users@.len() as int,
                    )
                },
    {
        let ghost n = self.users@.len();
        if self.users.len() == 0 {
            proof {
                assert forall|r: int|
                    0 <= r < self.rooms_mut@.len() implies (#[trigger] self.rooms_mut@[
                    r
                ]).bullets@.len() == 0 by {
                    if self.rooms_mut@[r].bullets@.len() > 0 {
                        assert(self.rooms_mut@[r].bullets@[0].user_idx < 0);
                    }
                }
            }
            return true;
        }
        let mut ci: usize = 0;
        while ci < self.users.len()
            invariant
                0 <= ci <= self.users@.len(),
                *self == *old(self),
                old(self).wf(),
                forall|j: int|
                    0 <= j < ci && self.users@[j] is Some ==> ((#[trigger] self.users@[
                        j
                    ])->0).in_limits(),
            decreases self.users@.len() - ci,
        {
            match self.users[ci] {
                Some(u) => {
                    let e = u.dynamic_entity;
                    if !(-CHECK_LIMIT <= e.entity.x && e.entity.x <= CHECK_LIMIT && -CHECK_LIMIT
                        <= e.entity.y && e.entity.y <= CHECK_LIMIT && -CHECK_LIMIT <= e.dy && e.dy
                        <= CHECK_LIMIT) {
                        proof {
                            assert(old(self).users@[ci as int] is Some);
                            assert(!((old(self).users@[ci as int])->0).in_limits());
                        }
                        return false;
                    }
                },
                None => {},
            }
            ci = ci + 1;
        }
        proof {
            assert(users_wf_bounded(self.users@, CHECK_LIMIT as int));
            assert(forall|i: int|
                0 <= i < old(self).users@.len() && old(self).users@[i] is Some ==> ((
                #[trigger] old(self).users@[i])->0).in_limits());
        }
        let mut ri: usize = 0;
        while ri < self.rooms_mut.len()
            invariant
                0 <= ri <= self.rooms_mut@.len(),
                self.rooms == old(self).rooms,
                self.rooms_to_render == old(self).rooms_to_render,
                old(self).wf(),
                old(self).users@.len() == n,
                wf_rooms(self.rooms@),
                self.rooms@.len() >= 1,
                self.rooms_mut@.len() == old(self).rooms_mut@.len(),
                self.rooms_mut@.len() == self.rooms@.len(),
                self.users@.len() == n,
                n >= 1,
                users_wf_bounded(self.users@, CHECK_LIMIT as int),
                rooms_indexed(self.users@, self.rooms@.len() as int),
                forall|r: int|
                    0 <= r < ri ==> (#[trigger] self.rooms_mut@[r]).bullets@.len() == 0,
                forall|r: int|
                    ri <= r < self.rooms_mut@.len() ==> #[trigger] self.rooms_mut@[r] == old(
                        self,
                    ).rooms_mut@[r],
                rooms_resolved_to(
                    old(self).users@,
                    self.users@,
                    old(self).rooms_mut@,
                    self.rooms_mut@,
                    old(self).rooms@,
                    ri as int,
                ),
                chain_ok(old(self).users@) ==> chain_ok(self.users@),
            decreases self.rooms_mut@.len() - ri,
        {
            let ghost rms_pre = self.rooms_mut@;
            let ghost u_room = self.users@;
            let mut rm: RoomMut = RoomMut::new();
            self.rooms_mut.set_and_swap(ri, &mut rm);
            let ghost rm_in = rm;
            let ghost rms_mid = self.rooms_mut@;
            proof {
                assert(rm.bullet_paths@.subrange(0, rm_in.bullet_paths@.len() as int)
                    =~= rm_in.bullet_paths@);
            }
            let mut bi: usize = 0;
            while bi < rm.bullets.len()
                invariant
                    0 <= bi <= rm.bullets@.len(),
                    rm.bullets == rm_in.bullets,
                    rm_in == old(self).rooms_mut@[ri as int],
                    ri < old(self).rooms_mut@.len(),
                    old(self).wf(),
                    old(self).users@.len() == n,
                    self.rooms == old(self).rooms,
                    self.rooms_to_render == old(self).rooms_to_render,
                    self.rooms_mut@ == rms_mid,
                    wf_rooms(self.rooms@),
                    self.rooms_mut@.len() == old(self).rooms_mut@.len(),
                    self.users@.len() == n,
                    users_wf_bounded(self.users@, CHECK_LIMIT as int),
                    rooms_indexed(self.users@, self.rooms@.len() as int),
                    rm.bullet_paths@.len() == rm_in.bullet_paths@.len() + bi,
                    rm.bullet_paths@.subrange(0, rm_in.bullet_paths@.len() as int)
                        == rm_in.bullet_paths@,
                    bullets_resolved(
                        u_room,
                        self.users@,
                        rm_in.bullets@.take(bi as int),
                        rm.bullet_paths@.skip(rm_in.bullet_paths@.len() as int),
                        old(self).rooms@,
                    ),
                    chain_ok(old(self).users@) ==> chain_ok(self.users@),
                decreases rm.bullets@.len() - bi,
            {
                let b: Bullet = rm.bullets[bi];
                proof {
                    assert((bi as int) < rm_in.bullets@.len());
                    assert(0 <= (ri as int) && (ri as int) < old(self).rooms_mut@.len());
                    assert(old(self).rooms_mut@[ri as int].bullets@.len() == rm_in.bullets@.len());
                    assert(old(self).rooms_mut@[ri as int].bullets@[bi as int] == b);
                    assert(old(self).users@.len() == n);
                    assert(b.user_idx < n && b.room_idx < self.rooms@.len() && b.ray.wf());
                    assert(users_wf_bounded(self.users@, SCAN_LIMIT as int));
                }
                let ghost u_b = self.users@;
                let ghost ps_old = rm.bullet_paths@.skip(rm_in.bullet_paths@.len() as int);
                let path = b.tick(&mut self.users, &self.rooms);
                rm.bullet_paths.push(path);
                proof {
                    let orig = rm_in.bullet_paths@.len() as int;
                    lemma_bullets_resolved_push(
                        u_room,
                        u_b,
                        self.users@,
                        rm_in.bullets@.take(bi as int),
                        ps_old,
                        b,
                        path,
                        old(self).rooms@,
                    );
                    assert(rm_in.bullets@.take(bi as int).push(b) =~= rm_in.bullets@.take(
                        bi as int + 1,
                    ));
                    assert(rm.bullet_paths@.skip(orig) =~= ps_old.push(path));
                    assert(rm.bullet_paths@.subrange(0, orig) =~= rm_in.bullet_paths@);
                    assert(bullets_resolved(
                        u_room,
                        self.users@,
                        rm_in.bullets@.take(bi as int + 1),
                        rm.bullet_paths@.skip(orig),
                        old(self).rooms@,
                    ));
                }
                bi = bi + 1;
            }
            proof {
                assert(rm_in.bullets@.take(rm.bullets@.len() as int) =~= rm_in.bullets@);
            }
            let ghost ps = rm.bullet_paths@.skip(rm_in.bullet_paths@.len() as int);
            rm.bullets.clear();
            let ghost rm_out = rm;
            self.rooms_mut.set_and_swap(ri, &mut rm);
            proof {
                assert(rm_out.bullet_paths@ =~= rm_in.bullet_paths@ + ps);
                assert(self.rooms_mut@[ri as int] == rm_out);
                assert(forall|j: int| 0 <= j < ri ==> self.rooms_mut@[j] == rms_pre[j]);
                lemma_rooms_resolved_frame(
                    old(self).users@,
                    u_room,
                    old(self).rooms_mut@,
                    rms_pre,
                    self.rooms_mut@,
                    old(self).rooms@,
                    ri as int,
                );
                lemma_rooms_resolved_step(
                    old(self).users@,
                    u_room,
                    self.users@,
                    old(self).rooms_mut@,
                    self.rooms_mut@,
                    ps,
                    old(self).rooms@,
                    ri as int,
                );
            }
            ri = ri + 1;
        }
        let ghost mid_u = self.users@;
        let ghost rm_done = self.rooms_mut@;
        let ghost render0 = self.rooms_to_render@;
        proof {
            assert(render0 + render_to(mid_u, old(self).rooms@, 0) =~= render0);
        }
        let mut idx: usize = 0;
        while idx < self.users.len()
            invariant
                0 <= idx <= n,
                self.users@.len() == n,
                1 <= n <= MAX_PLAYERS,
                mid_u.len() == n,
                self.rooms == old(self).rooms,
                wf_rooms(self.rooms@),
                self.rooms@.len() >= 1,
                self.rooms_mut@.len() == self.rooms@.len(),
                self.rooms_mut@ == rm_done,
                self.users@ == integrate_to(mid_u, old(self).rooms@, idx as int),
                self.rooms_to_render@ == render0 + render_to(mid_u, old(self).rooms@, idx as int),
                chain_ok(old(self).users@) ==> chain_ok(self.users@),
                forall|r: int|
                    0 <= r < self.rooms_mut@.len() ==> (#[trigger] self.rooms_mut@[
                        r
                    ]).bullets@.len() == 0,
                rooms_indexed(self.users@, self.rooms@.len() as int),
                forall|j: int|
                    0 <= j < self.users@.len() && self.users@[j] is Some ==> ((
                    #[trigger] self.users@[j])->0).wf() && state_bounded(
                        (self.users@[j])->0,
                        CHECK_LIMIT + (idx as int) * TICK_SLACK,
                    ),
            decreases n - idx,
        {
            let ghost bound = CHECK_LIMIT + (idx as int) * TICK_SLACK;
            proof {
                assert(bound + TICK_SLACK == CHECK_LIMIT + (idx as int + 1) * TICK_SLACK);
                assert(CHECK_LIMIT + (n as int) * TICK_SLACK <= SCAN_LIMIT);
                assert(users_wf_bounded(self.users@, SCAN_LIMIT as int));
            }
            match self.users[idx] {
                None => {
                    proof {
                        assert(integrate_to(mid_u, old(self).rooms@, idx as int + 1)
                            == self.users@);
                        assert(render_to(mid_u, old(self).rooms@, idx as int + 1) == render_to(
                            mid_u,
                            old(self).rooms@,
                            idx as int,
                        ));
                    }
                },
                Some(u0) => {
                    self.rooms_to_render.push(u0.room_idx);
                    let mut u: User = u0;
                    u.tick(&self.users, &self.rooms);
                    let ghost w = self.users@;
                    self.users.set(idx, Some(u));
                    proof {
                        assert(state_bounded(u, bound + TICK_SLACK));
                        assert(w == integrate_to(mid_u, old(self).rooms@, idx as int));
                        assert(w[idx as int] == Some(u0));
                        assert(u == tick_spec(u0, w, old(self).rooms@));
                        assert(self.users@ == integrate_to(
                            mid_u,
                            old(self).rooms@,
                            idx as int + 1,
                        ));
                        assert(self.rooms_to_render@ =~= render0 + render_to(
                            mid_u,
                            old(self).rooms@,
                            idx as int + 1,
                        ));
                        if chain_ok(old(self).users@) {
                            lemma_tick_spec_links(u0, w, old(self).rooms@);
                            lemma_chain_same_shape(w, self.users@);
                        }
                    }
                },
            }
            idx = idx + 1;
        }
        proof {
            assert(CHECK_LIMIT + (n as int) * TICK_SLACK <= SCAN_LIMIT);
            assert(users_wf_bounded(self.users@, SCAN_LIMIT as int));
            assert(self.users@ == integrate_to(
                mid_u,
                old(self).rooms@,
                old(self).users@.len() as int,
            ));
            assert(rooms_resolved_to(
                old(self).users@,
                mid_u,
                old(self).rooms_mut@,
                self.rooms_mut@,
                old(self).rooms@,
                old(self).rooms_mut@.len() as int,
            ));
            assert(self.rooms_to_render@ == old(self).rooms_to_render@ + render_to(
                mid_u,
                old(self).rooms@,
                old(self).users@.len() as int,
            ));
        }
        true
    }

    /// Forget this tick's rendering output: the room list and every room's
    /// resolved bullet paths. Pending bullets and players stay untouched.
    pub fn clear_tick_output(&mut self)
        requires
            old(self).wf(),
        ensures
            final(self).wf(),
            final(self).rooms == old(self).rooms,
            final(self).users == old(self).users,
            final(self).rooms_to_render@.len() == 0,
            final(self).rooms_mut@.len() == old(self).rooms_mut@.len(),
            forall|r: int|
                0 <= r < final(self).rooms_mut@.len() ==> (#[trigger] final(self).rooms_mut@[
                    r
                ]).bullet_paths@.len() == 0 && final(self).rooms_mut@[r].bullets@ == old(
                    self,
                ).rooms_mut@[r].bullets@,
    {
        self.rooms_to_render.clear();
        let mut ri: usize = 0;
        while ri < self.rooms_mut.len()
            invariant
                0 <= ri <= self.rooms_mut@.len(),
                self.rooms == old(self).rooms,
                self.users == old(self).users,
                self.rooms_to_render@.len() == 0,
                old(self).wf(),
                self.rooms_mut@.len() == old(self).rooms_mut@.len(),
                forall|r: int|
                    0 <= r < ri ==> (#[trigger] self.rooms_mut@[r]).bullet_paths@.len() == 0
                        && self.rooms_mut@[r].bullets@ == old(self).rooms_mut@[r].bullets@,
                forall|r: int|
                    ri <= r < self.rooms_mut@.len() ==> #[trigger] self.rooms_mut@[r] == old(
                        self,
                    ).rooms_mut@[r],
            decreases self.rooms_mut@.len() - ri,
        {
            let mut rm: RoomMut = RoomMut::new();
            self.rooms_mut.set_and_swap(ri, &mut rm);
            rm.bullet_paths.clear();
            self.rooms_mut.set_and_swap(ri, &mut rm);
            ri = ri + 1;
        }
    }
}

} // verus!