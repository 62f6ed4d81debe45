use vstd::prelude::*;
use crate::user::User;

verus! {

/// Slot `i` holds a live player.
pub open spec fn live(users: Seq<Option<User>>, i: int) -> bool {
    0 <= i < users.len() && users[i] is Some
}

/// The target link of the live player in slot `i`.
pub open spec fn target_of(users: Seq<Option<User>>, i: int) -> int {
    (users[i]->0).target_user_idx as int
}

/// No slot holds a live player.
pub open spec fn no_live(users: Seq<Option<User>>) -> bool {
    forall|i: int| !live(users, i)
}

/// Slot `p` holds a live player whose target link points at slot `idx`.
pub open spec fn targets(users: Seq<Option<User>>, p: int, idx: int) -> bool {
    live(users, p) && target_of(users, p) == idx
}

/// `s` lists every live slot exactly once, and the target links follow it
/// cyclically: the target chain is a single cycle over the live players.
pub open spec fn is_cycle_witness(users: Seq<Option<User>>, s: Seq<int>) -> bool {
    &&& forall|k: int| 0 <= k < s.len() ==> live(users, #[trigger] s[k])
    &&& forall|i: int| live(users, i) ==> s.contains(i)
    &&& forall|k1: int, k2: int| 0 <= k1 < k2 < s.len() ==> s[k1] != s[k2]
    &&& forall|k: int|
        0 <= k < s.len() ==> target_of(users, #[trigger] s[k]) == s[(k + 1) % (s.len() as int)]
}

/// The target-chain invariant: the `target_user_idx` relation restricted to
/// the live players is a single permutation cycle covering all of them.
pub open spec fn chain_ok(users: Seq<Option<User>>) -> bool {
    exists|s: Seq<int>| is_cycle_witness(users, s)
}

pub proof fn lemma_mod_basics(x: int, n: int)
    requires
        n > 0,
    ensures
        0 <= x % n < n,
        0 <= x < n ==> x % n == x,
        x == n ==> x % n == 0,
{
    assert(0 <= x % n < n) by (nonlinear_arith)
        requires
            n > 0,
    ;
    assert(0 <= x < n ==> x % n == x) by (nonlinear_arith)
        requires
            n > 0,
    ;
    assert(x == n ==> x % n == 0) by (nonlinear_arith)
        requires
            n > 0,
    ;
}

/// One splice of the join algorithm: the live player in slot `k` handed its
/// old target `r` to a newcomer at `new_user_idx` and targets the newcomer.
pub open spec fn splice_source(
    pre: Seq<Option<User>>,
    post: Seq<Option<User>>,
    k: int,
    new_user_idx: usize,
    r: usize,
) -> bool {
    &&& live(pre, k)
    &&& r as int == target_of(pre, k)
    &&& post == pre.update(k, Some(User { target_user_idx: new_user_idx, ..(pre[k]->0) }))
}

/// The invariant only reads liveness and the target links, so any change
/// that keeps both keeps the invariant.
pub proof fn lemma_chain_same_shape(pre: Seq<Option<User>>, post: Seq<Option<User>>)
    requires
        pre.len() == post.len(),
        forall|i: int| live(pre, i) <==> live(post, i),
        forall|i: int| live(pre, i) ==> target_of(pre, i) == target_of(post, i),
        chain_ok(pre),
    ensures
        chain_ok(post),
{
    let s = choose|s: Seq<int>| is_cycle_witness(pre, s);
    assert forall|k: int| 0 <= k < s.len() implies live(post, #[trigger] s[k]) by {
        assert(live(pre, s[k]));
    }
    assert forall|i: int| live(post, i) implies s.contains(i) by {
        assert(live(pre, i));
    }
    assert forall|k: int| 0 <= k < s.len() implies target_of(post, #[trigger] s[k]) == s[(k + 1) % (
    s.len() as int)] by {
        assert(live(pre, s[k]));
        assert(target_of(pre, s[k]) == s[(k + 1) % (s.len() as int)]);
    }
    assert(is_cycle_witness(post, s));
}

/// A vacant world trivially satisfies the invariant.
pub proof fn lemma_chain_ok_when_none(users: Seq<Option<User>>)
    requires
        no_live(users),
    ensures
        chain_ok(users),
{
    let s = Seq::<int>::empty();
    assert(is_cycle_witness(users, s));
}

/// Target-link step of the insertion proof, for one position of the
/// extended listing.
#[verifier::rlimit(100)]
#[verifier::spinoff_prover]
proof fn lemma_join_target_at(
    pre: Seq<Option<User>>,
    post: Seq<Option<User>>,
    k: int,
    idx: int,
    s: Seq<int>,
    p: int,
    q: int,
)
    requires
        is_cycle_witness(pre, s),
        0 <= p < s.len(),
        s[p] == k,
        live(pre, k),
        !live(pre, idx),
        0 <= idx < post.len(),
        pre.len() <= post.len(),
        k < post.len(),
        post[idx] is Some,
        target_of(post, idx) == target_of(pre, k),
        post[k] is Some,
        target_of(post, k) == idx,
        forall|j: int|
            0 <= j < post.len() && j != idx && j != k ==> #[trigger] post[j] == (if j < pre.len() {
                pre[j]
            } else {
                None
            }),
        0 <= q < s.len() + 1,
    ensures
        target_of(post, s.insert(p + 1, idx)[q]) == s.insert(p + 1, idx)[(q + 1) % (s.len() as int
            + 1)],
{
    let n = s.len() as int;
    let s2 = s.insert(p + 1, idx);
    assert forall|t: int| 0 <= t < n implies s[t] != idx by {
        assert(live(pre, s[t]));
    }
    lemma_mod_basics(q, n);
    lemma_mod_basics(q + 1, n);
    lemma_mod_basics(q + 1, n + 1);
    lemma_mod_basics(p + 1, n);
    lemma_mod_basics(p + 1, n + 1);
    lemma_mod_basics(p + 2, n + 1);
    if q < p {
        assert(s2[q] == s[q]);
        assert(s[q] != k && s[q] != idx);
        assert(target_of(post, s[q]) == target_of(pre, s[q]));
        assert(target_of(pre, s[q]) == s[(q + 1) % n]);
        assert((q + 1) % n == q + 1);
        assert((q + 1) % (n + 1) == q + 1);
        assert(s2[q + 1] == s[q + 1]);
    } else if q == p {
        assert(s2[q] == k);
        assert(target_of(post, k) == idx);
        assert((p + 1) % (n + 1) == p + 1);
        assert(s2[p + 1] == idx);
    } else if q == p + 1 {
        assert(s2[q] == idx);
        assert(target_of(post, idx) == target_of(pre, k));
        assert(target_of(pre, k) == s[(p + 1) % n]);
        if p + 1 < n {
            assert((q + 1) % (n + 1) == p + 2);
            assert(s2[p + 2] == s[p + 1]);
            assert((p + 1) % n == p + 1);
        } else {
            assert(p + 1 == n);
            assert((q + 1) % (n + 1) == 0);
            assert(s2[0] == s[0]);
            assert((p + 1) % n == 0);
        }
    } else {
        assert(s2[q] == s[q - 1]);
        assert(s[q - 1] != k && s[q - 1] != idx);
        assert(target_of(post, s[q - 1]) == target_of(pre, s[q - 1]));
        assert(target_of(pre, s[q - 1]) == s[q % n]);
        if q < n {
            assert((q + 1) % (n + 1) == q + 1);
            assert(s2[q + 1] == s[q]);
            assert(q % n == q);
        } else {
            assert(q == n);
            assert((q + 1) % (n + 1) == 0);
            assert(s2[0] == s[0]);
            assert(q % n == 0);
        }
    }
}

/// Cycle insertion preserves the invariant: a fresh player in vacant slot
/// `idx` is spliced in right after live player `k` — the new player takes
/// over `k`'s old target and `k` now targets the new player. Covers both a
/// reused slot and a slot appended at the end.
#[verifier::rlimit(100)]
#[verifier::spinoff_prover]
pub proof fn lemma_chain_join(
    pre: Seq<Option<User>>,
    post: Seq<Option<User>>,
    k: int,
    idx: int,
)
    requires
        chain_ok(pre),
        live(pre, k),
        !live(pre, idx),
        0 <= idx < post.len(),
        pre.len() <= post.len(),
        k < post.len(),
        post[idx] is Some,
        target_of(post, idx) == target_of(pre, k),
        post[k] is Some,
        target_of(post, k) == idx,
        (post[k]->0) == (User { target_user_idx: (post[k]->0).target_user_idx, ..(pre[k]->0) }),
        forall|j: int|
            0 <= j < post.len() && j != idx && j != k ==> #[trigger] post[j] == (if j < pre.len() {
                pre[j]
            } else {
                None
            }),
    ensures
        chain_ok(post),
{
    let s = choose|s: Seq<int>| is_cycle_witness(pre, s);
    assert(s.contains(k));
    let p = choose|p: int| 0 <= p < s.len() && s[p] == k;
    let n = s.len() as int;
    let s2 = s.insert(p + 1, idx);
    assert(s2.len() == n + 1);
    // idx is not among the old entries
    assert forall|q: int| 0 <= q < n implies s[q] != idx by {
        assert(live(pre, s[q]));
    }
    // membership of every live slot of the new world
    assert forall|i: int| live(post, i) implies s2.contains(i) by {
        if i == idx {
            assert(s2[p + 1] == idx);
        } else {
            assert(live(pre, i));
            assert(s.contains(i));
            let q = choose|q: int| 0 <= q < s.len() && s[q] == i;
            if q <= p {
                assert(s2[q] == i);
            } else {
                assert(s2[q + 1] == i);
            }
        }
    }
    // liveness of every entry
    assert forall|q: int| 0 <= q < s2.len() implies live(post, #[trigger] s2[q]) by {
        if q == p + 1 {
            assert(s2[q] == idx);
        } else if q <= p {
            assert(s2[q] == s[q]);
            assert(live(pre, s[q]));
        } else {
            assert(s2[q] == s[q - 1]);
            assert(live(pre, s[q - 1]));
        }
    }
    // distinctness
    assert forall|q1: int, q2: int| 0 <= q1 < q2 < s2.len() implies s2[q1] != s2[q2] by {
        let e1 = if q1 == p + 1 {
            idx
        } else if q1 <= p {
            s[q1]
        } else {
            s[q1 - 1]
        };
        let e2 = if q2 == p + 1 {
            idx
        } else if q2 <= p {
            s[q2]
        } else {
            s[q2 - 1]
        };
        assert(s2[q1] == e1);
        assert(s2[q2] == e2);
    }
    // the target links follow the new listing
    assert forall|q: int| 0 <= q < s2.len() implies target_of(post, #[trigger] s2[q]) == s2[
        (q + 1) % (s2.len() as int)
    ] by {
        lemma_join_target_at(pre, post, k, idx, s, p, q);
    }
    assert(is_cycle_witness(post, s2));
}

/// Cycle contraction preserves the invariant: live player `a` absorbs the
/// outgoing link of its own target `v`, and `v`'s slot is cleared.
proof fn proof_mod_facts(p: int, n: int)
    requires
        n > 0,
        0 <= p < n,
    ensures
        0 <= (p + 1) % n < n,
        p + 1 < n ==> (p + 1) % n == p + 1,
        p + 1 == n ==> (p + 1) % n == 0,
{
    lemma_mod_basics(p + 1, n);
}

/// Target-link step of the contraction proof, for one position of the
/// shortened listing.
#[verifier::rlimit(100)]
proof fn lemma_remove_target_at(
    pre: Seq<Option<User>>,
    post: Seq<Option<User>>,
    a: int,
    v: int,
    s: Seq<int>,
    p: int,
    q: int,
)
    requires
        is_cycle_witness(pre, s),
        0 <= p < s.len(),
        s[p] == a,
        live(pre, a),
        live(pre, v),
        a != v,
        target_of(pre, a) == v,
        post.len() == pre.len(),
        post[v] is None,
        post[a] is Some,
        target_of(post, a) == target_of(pre, v),
        forall|j: int| 0 <= j < post.len() && j != a && j != v ==> #[trigger] post[j] == pre[j],
        0 <= q < s.len() - 1,
    ensures
        target_of(post, s.remove((p + 1) % (s.len() as int))[q]) == s.remove(
            (p + 1) % (s.len() as int),
        )[(q + 1) % (s.len() as int - 1)],
{
    let n = s.len() as int;
    lemma_mod_basics(p + 1, n);
    let pv = (p + 1) % n;
    assert(s[pv] == v);
    assert(p != pv);
    assert(n >= 2);
    let s2 = s.remove(pv);
    let m = n - 1;
    lemma_mod_basics(q + 1, m);
    lemma_mod_basics(q + 2, n);
    lemma_mod_basics(pv + 1, n);
    let e = if q < pv {
        s[q]
    } else {
        s[q + 1]
    };
    assert(s2[q] == e);
    assert(e != v);
    if e == a {
        // the position of a in s is unique
        if q < pv {
            assert(s[q] == s[p]);
            assert(q == p);
        } else {
            assert(s[q + 1] == s[p]);
            assert(q + 1 == p);
        }
        assert(target_of(post, a) == target_of(pre, v));
        assert(target_of(pre, v) == target_of(pre, s[pv]));
        assert(target_of(pre, s[pv]) == s[(pv + 1) % n]);
        if pv == 0 {
            // v sat first, a sat last
            assert(p == n - 1);
            assert(q == p - 1);
            assert(q + 1 == m);
            assert((q + 1) % m == 0);
            assert(s2[0] == s[1]);
            assert((pv + 1) % n == 1);
        } else {
            assert(pv == p + 1);
            assert(q == p);
            if pv + 1 < n {
                assert((pv + 1) % n == pv + 1);
                assert((q + 1) % m == p + 1);
                assert(s2[p + 1] == s[p + 2]);
            } else {
                assert((pv + 1) % n == 0);
                assert(q == m - 1);
                assert((q + 1) % m == 0);
                assert(s2[0] == s[0]);
            }
        }
    } else {
        assert(e != a && e != v);
        assert(target_of(post, e) == target_of(pre, e));
        if q < pv {
            assert(target_of(pre, s[q]) == s[(q + 1) % n]);
            lemma_mod_basics(q + 1, n);
            if q + 1 < pv {
                assert((q + 1) % n == q + 1);
                assert((q + 1) % m == q + 1);
                assert(s2[q + 1] == s[q + 1]);
            } else {
                // the next entry would be v, so e targets v; only a does
                assert(q + 1 == pv);
                assert((q + 1) % n == pv);
                assert(target_of(pre, e) == s[pv]);
                assert(s[pv] == v);
                // a also targets v, and positions targeting pv are unique
                // modulo n, so q == p, contradicting e != a
                assert(target_of(pre, s[p]) == s[(p + 1) % n]);
                if p + 1 < n {
                    assert(pv == p + 1);
                    assert(q == p);
                    assert(false);
                } else {
                    assert(pv == 0);
                    assert(q + 1 == 0);
                    assert(false);
                }
            }
        } else {
            assert(e == s[q + 1]);
            assert(target_of(pre, s[q + 1]) == s[(q + 2) % n]);
            if q + 2 <= n - 1 {
                assert((q + 2) % n == q + 2);
                assert((q + 1) % m == q + 1);
                assert(s2[q + 1] == s[q + 2]);
            } else {
                assert(q + 2 == n);
                assert((q + 2) % n == 0);
                assert(q + 1 == m);
                assert((q + 1) % m == 0);
                if pv == 0 {
                    // then e targets s[0] == v, so e would be a
                    assert(target_of(pre, e) == s[0]);
                    assert(s[0] == v);
                    assert(p == n - 1);
                    assert(e == s[q + 1] && q + 1 == n - 1);
                    assert(e == a);
                    assert(false);
                } else {
                    assert(s2[0] == s[0]);
                    assert(target_of(pre, e) == s[0]);
                }
            }
        }
    }
}

/// Cycle contraction preserves the invariant: live player `a` absorbs the
/// outgoing link of its own target `v`, and `v`'s slot is cleared.
#[verifier::rlimit(100)]
#[verifier::spinoff_prover]
pub proof fn lemma_chain_remove(
    pre: Seq<Option<User>>,
    post: Seq<Option<User>>,
    a: int,
    v: int,
)
    requires
        chain_ok(pre),
        live(pre, a),
        live(pre, v),
        a != v,
        target_of(pre, a) == v,
        post.len() == pre.len(),
        post[v] is None,
        post[a] is Some,
        target_of(post, a) == target_of(pre, v),
        (post[a]->0) == (User { target_user_idx: (post[a]->0).target_user_idx, ..(pre[a]->0) }),
        forall|j: int| 0 <= j < post.len() && j != a && j != v ==> #[trigger] post[j] == pre[j],
    ensures
        chain_ok(post),
{
    let s = choose|s: Seq<int>| is_cycle_witness(pre, s);
    assert(s.contains(a));
    let p = choose|p: int| 0 <= p < s.len() && s[p] == a;
    let n = s.len() as int;
    lemma_mod_basics(p + 1, n);
    assert(target_of(pre, a) == s[(p + 1) % n]);
    let pv = (p + 1) % n;
    assert(0 <= pv < n);
    assert(s[pv] == v);
    assert(p != pv);
    assert(n >= 2);
    let s2 = s.remove(pv);
    assert(s2.len() == n - 1);
    // membership
    assert forall|i: int| live(post, i) implies s2.contains(i) by {
        assert(live(pre, i));
        assert(i != v);
        assert(s.contains(i));
        let q = choose|q: int| 0 <= q < s.len() && s[q] == i;
        assert(q != pv);
        if q < pv {
            assert(s2[q] == i);
        } else {
            assert(s2[q - 1] == i);
        }
    }
    // liveness
    assert forall|q: int| 0 <= q < s2.len() implies live(post, #[trigger] s2[q]) by {
        let e = if q < pv {
            s[q]
        } else {
            s[q + 1]
        };
        assert(s2[q] == e);
        assert(live(pre, e));
        assert(e != v);
    }
    // distinctness
    assert forall|q1: int, q2: int| 0 <= q1 < q2 < s2.len() implies s2[q1] != s2[q2] by {
        let e1 = if q1 < pv {
            s[q1]
        } else {
            s[q1 + 1]
        };
        let e2 = if q2 < pv {
            s[q2]
        } else {
            s[q2 + 1]
        };
        assert(s2[q1] == e1);
        assert(s2[q2] == e2);
    }
    // target links
    assert forall|q: int| 0 <= q < s2.len() implies target_of(post, #[trigger] s2[q]) == s2[
        (q + 1) % (s2.len() as int)
    ] by {
        lemma_remove_target_at(pre, post, a, v, s, p, q);
    }
    assert(is_cycle_witness(post, s2));
}

/// Clearing a self-targeting player preserves the invariant: such a player
/// is necessarily the only live one.
pub proof fn lemma_chain_remove_sole(
    pre: Seq<Option<User>>,
    post: Seq<Option<User>>,
    d: int,
)
    requires
        chain_ok(pre),
        live(pre, d),
        target_of(pre, d) == d,
        post.len() == pre.len(),
        post[d] is None,
        forall|j: int| 0 <= j < post.len() && j != d ==> #[trigger] post[j] == pre[j],
    ensures
        chain_ok(post),
        forall|j: int| !live(post, j),
{
    let s = choose|s: Seq<int>| is_cycle_witness(pre, s);
    assert(s.contains(d));
    let p = choose|p: int| 0 <= p < s.len() && s[p] == d;
    let n = s.len() as int;
    // d targets itself, so the successor position holds d as well, and by
    // distinctness the cycle has length one
    assert(target_of(pre, s[p]) == s[(p + 1) % n]);
    assert(s[(p + 1) % n] == d);
    if n > 1 {
        lemma_mod_basics(p + 1, n);
        let p2 = (p + 1) % n;
        assert(0 <= p2 < n);
        assert(if p + 1 < n { p2 == p + 1 } else { p2 == 0 && p == n - 1 });
        assert(s[p2] == d && s[p] == d);
        assert(p2 != p);
        assert(false);
    }
    assert(n == 1);
    assert forall|j: int| !live(post, j) by {
        if live(post, j) {
            assert(live(pre, j));
            assert(s.contains(j));
            let q = choose|q: int| 0 <= q < s.len() && s[q] == j;
            assert(q == 0);
            assert(j == d);
            assert(false);
        }
    }
    lemma_chain_ok_when_none(post);
}

} // verus!
