//! The fixed-size particle store and the force/integration step over it.
//!
//! Positions and velocities are held as two arrays indexed by particle. The
//! coordinate arithmetic of the force law is supplied by the caller: `acc`
//! adds to a velocity the contribution of one other particle, given the two
//! positions, and `adv` moves a position by a velocity.
use vstd::prelude::*;

verus! {

/// `v` is a velocity that particle `i` can reach from `v0` when the
/// contributions of the first `k` particles of `ps`, itself excluded, are
/// added to it one by one in index order, all against the positions `ps`.
pub open spec fn accumulated<P, V, A: Fn(V, P, P) -> V>(
    acc: A,
    ps: Seq<P>,
    i: int,
    k: int,
    v0: V,
    v: V,
) -> bool
    decreases k,
{
    if k <= 0 {
        v == v0
    } else if k - 1 == i {
        accumulated(acc, ps, i, k - 1, v0, v)
    } else {
        exists|w: V|
            accumulated(acc, ps, i, k - 1, v0, w) && #[trigger] call_ensures(acc, (w, ps[i], ps[k - 1]), v)
    }
}

/// Adding the contribution of particle `k - 1`, not `i` itself, extends an
/// accumulation over the first `k - 1` particles to the first `k`.
proof fn lemma_accumulated_next<P, V, A: Fn(V, P, P) -> V>(
    acc: A,
    ps: Seq<P>,
    i: int,
    k: int,
    v0: V,
    w: V,
    v: V,
)
    requires
        0 < k,
        k - 1 != i,
        accumulated(acc, ps, i, k - 1, v0, w),
        call_ensures(acc, (w, ps[i], ps[k - 1]), v),
    ensures
        accumulated(acc, ps, i, k, v0, v),
{
}

/// One tick takes positions `ps` and velocities `vs` to `ps2` and `vs2`:
/// every particle's velocity gathers the contributions of all others,
/// computed against the positions before the tick; then every position
/// advances by its particle's new velocity. The count never changes.
pub open spec fn stepped<P, V, A: Fn(V, P, P) -> V, D: Fn(P, V) -> P>(
    acc: A,
    adv: D,
    ps: Seq<P>,
    vs: Seq<V>,
    ps2: Seq<P>,
    vs2: Seq<V>,
) -> bool {
    &&& ps2.len() == ps.len()
    &&& vs2.len() == vs.len()
    &&& forall|i: int|
        0 <= i < ps.len() ==> accumulated(acc, ps, i, ps.len() as int, vs[i], #[trigger] vs2[i])
    &&& forall|i: int| 0 <= i < ps.len() ==> call_ensures(adv, (ps[i], vs2[i]), #[trigger] ps2[i])
}

/// `acc` gives at most one result for each velocity and pair of positions.
pub open spec fn acc_deterministic<P, V, A: Fn(V, P, P) -> V>(acc: A) -> bool {
    forall|v: V, a: P, b: P, r1: V, r2: V|
        call_ensures(acc, (v, a, b), r1) && call_ensures(acc, (v, a, b), r2) ==> r1 == r2
}

/// `adv` gives at most one result for each position and velocity.
pub open spec fn adv_deterministic<P, V, D: Fn(P, V) -> P>(adv: D) -> bool {
    forall|p: P, v: V, r1: P, r2: P|
        call_ensures(adv, (p, v), r1) && call_ensures(adv, (p, v), r2) ==> r1 == r2
}

/// With deterministic arithmetic an accumulation has one outcome.
proof fn lemma_accumulated_unique<P, V, A: Fn(V, P, P) -> V>(
    acc: A,
    ps: Seq<P>,
    i: int,
    k: int,
    v0: V,
    v1: V,
    v2: V,
)
    requires
        acc_deterministic(acc),
        accumulated(acc, ps, i, k, v0, v1),
        accumulated(acc, ps, i, k, v0, v2),
    ensures
        v1 == v2,
    decreases k,
{
    if k > 0 {
        if k - 1 == i {
            lemma_accumulated_unique(acc, ps, i, k - 1, v0, v1, v2);
        } else {
            let w1 = choose|w: V|
                accumulated(acc, ps, i, k - 1, v0, w) && #[trigger] call_ensures(
                    acc,
                    (w, ps[i], ps[k - 1]),
                    v1,
                );
            let w2 = choose|w: V|
                accumulated(acc, ps, i, k - 1, v0, w) && #[trigger] call_ensures(
                    acc,
                    (w, ps[i], ps[k - 1]),
                    v2,
                );
            lemma_accumulated_unique(acc, ps, i, k - 1, v0, w1, w2);
        }
    }
}

/// A tick is reproducible: when the supplied arithmetic is deterministic,
/// two ticks from the same positions and velocities end in the same
/// positions and velocities.
pub proof fn lemma_step_deterministic<P, V, A: Fn(V, P, P) -> V, D: Fn(P, V) -> P>(
    acc: A,
    adv: D,
    ps: Seq<P>,
    vs: Seq<V>,
    ps2: Seq<P>,
    vs2: Seq<V>,
    ps3: Seq<P>,
    vs3: Seq<V>,
)
    requires
        acc_deterministic(acc),
        adv_deterministic(adv),
        ps.len() == vs.len(),
        stepped(acc, adv, ps, vs, ps2, vs2),
        stepped(acc, adv, ps, vs, ps3, vs3),
    ensures
        ps2 == ps3,
        vs2 == vs3,
{
    assert forall|i: int| 0 <= i < vs.len() implies vs2[i] == vs3[i] by {
        lemma_accumulated_unique(acc, ps, i, ps.len() as int, vs[i], vs2[i], vs3[i]);
    }
    assert(vs2 =~= vs3);
    assert forall|i: int| 0 <= i < ps.len() implies ps2[i] == ps3[i] by {
        assert(call_ensures(adv, (ps[i], vs2[i]), ps2[i]));
        assert(call_ensures(adv, (ps[i], vs3[i]), ps3[i]));
    }
    assert(ps2 =~= ps3);
}

/// A lone particle feels no force: a tick leaves its velocity as it was.
/// If moving by that velocity leaves a position where it is (as a zero
/// velocity does), the tick leaves its position unchanged too.
pub proof fn lemma_single_particle_unaffected<P, V, A: Fn(V, P, P) -> V, D: Fn(P, V) -> P>(
    acc: A,
    adv: D,
    ps: Seq<P>,
    vs: Seq<V>,
    ps2: Seq<P>,
    vs2: Seq<V>,
)
    requires
        ps.len() == 1,
        vs.len() == 1,
        stepped(acc, adv, ps, vs, ps2, vs2),
    ensures
        vs2 == vs,
        (forall|r: P| call_ensures(adv, (ps[0], vs[0]), r) ==> r == ps[0]) ==> ps2 == ps,
{
    assert(accumulated(acc, ps, 0, 1, vs[0], vs2[0]));
    assert(accumulated(acc, ps, 0, 0, vs[0], vs2[0]));
    assert(vs2 =~= vs);
    assert(call_ensures(adv, (ps[0], vs2[0]), ps2[0]));
    if forall|r: P| call_ensures(adv, (ps[0], vs[0]), r) ==> r == ps[0] {
        assert(ps2 =~= ps);
    }
}

/// With two particles, each one's velocity takes exactly one contribution,
/// that of the other particle: neither is ever paired with itself.
pub proof fn lemma_two_particles_pair_only_each_other<P, V, A: Fn(V, P, P) -> V, D: Fn(P, V) -> P>(
    acc: A,
    adv: D,
    ps: Seq<P>,
    vs: Seq<V>,
    ps2: Seq<P>,
    vs2: Seq<V>,
)
    requires
        ps.len() == 2,
        vs.len() == 2,
        stepped(acc, adv, ps, vs, ps2, vs2),
    ensures
        call_ensures(acc, (vs[0], ps[0], ps[1]), vs2[0]),
        call_ensures(acc, (vs[1], ps[1], ps[0]), vs2[1]),
{
    assert(accumulated(acc, ps, 0, 2, vs[0], vs2[0]));
    let w0 = choose|w: V|
        accumulated(acc, ps, 0, 1, vs[0], w) && #[trigger] call_ensures(acc, (w, ps[0], ps[1]), vs2[0]);
    assert(accumulated(acc, ps, 0, 0, vs[0], w0));
    assert(accumulated(acc, ps, 1, 2, vs[1], vs2[1]));
    assert(accumulated(acc, ps, 1, 1, vs[1], vs2[1]));
    let w1 = choose|w: V|
        accumulated(acc, ps, 1, 0, vs[1], w) && #[trigger] call_ensures(acc, (w, ps[1], ps[0]), vs2[1]);
    assert(w1 == vs[1]);
}

/// A fixed number of particles, each with a position and a velocity, kept
/// at the same index for the lifetime of the store.
pub struct ParticleStore<P, V> {
    positions: Vec<P>,
    velocities: Vec<V>,
}

impl<P: Copy, V: Copy> ParticleStore<P, V> {
    /// The positions, by particle.
    pub closed spec fn pos_seq(&self) -> Seq<P> {
        self.positions@
    }

    /// The velocities, by particle.
    pub closed spec fn vel_seq(&self) -> Seq<V> {
        self.velocities@
    }

    /// Every particle has both a position and a velocity.
    pub open spec fn wf(&self) -> bool {
        self.pos_seq().len() == self.vel_seq().len()
    }

    /// A store of one particle per entry of `positions`, in that order, each
    /// at rest: its velocity is `rest`.
    pub fn from_positions(positions: Vec<P>, rest: V) -> (r: Self)
        ensures
            r.wf(),
            r.pos_seq() == positions@,
            forall|i: int| 0 <= i < r.vel_seq().len() ==> #[trigger] r.vel_seq()[i] == rest,
    {
        let n = positions.len();
        let mut velocities: Vec<V> = Vec::with_capacity(n);
        let mut i: usize = 0;
        while i < n
            invariant
                i <= n,
                velocities.len() == i,
                forall|j: int| 0 <= j < i ==> #[trigger] velocities[j] == rest,
            decreases n - i,
        {
            velocities.push(rest);
            i = i + 1;
        }
        ParticleStore { positions, velocities }
    }

    /// The number of particles.
    pub fn len(&self) -> (r: usize)
        requires
            self.wf(),
        ensures
            r == self.pos_seq().len(),
            r == self.vel_seq().len(),
    {
        self.positions.len()
    }

    /// The position of particle `i`.
    pub fn position(&self, i: usize) -> (r: P)
        requires
            self.wf(),
            i < self.pos_seq().len(),
        ensures
            r == self.pos_seq()[i as int],
    {
        self.positions[i]
    }

    /// The velocity of particle `i`.
    pub fn velocity(&self, i: usize) -> (r: V)
        requires
            self.wf(),
            i < self.vel_seq().len(),
        ensures
            r == self.vel_seq()[i as int],
    {
        self.velocities[i]
    }

    /// One force/integration step. First, for each particle `i` in index
    /// order, `acc` is applied to its velocity once for every other particle
    /// `j`, in index order, with the positions of `i` and `j`; no position
    /// moves during this pass, and a particle is never paired with itself.
    /// Then each position is advanced with `adv` by its new velocity.
    pub fn step<A: Fn(V, P, P) -> V, D: Fn(P, V) -> P>(&mut self, acc: A, adv: D)
        requires
            old(self).wf(),
            forall|v: V, a: P, b: P| call_requires(acc, (v, a, b)),
            forall|a: P, v: V| call_requires(adv, (a, v)),
        ensures
            final(self).wf(),
            stepped(
                acc,
                adv,
                old(self).pos_seq(),
                old(self).vel_seq(),
                final(self).pos_seq(),
                final(self).vel_seq(),
            ),
    {
        let n = self.positions.len();
        let ghost ps = self.positions@;
        let ghost vs = self.velocities@;
        let mut i: usize = 0;
        while i < n
            invariant
                n == ps.len(),
                vs.len() == n,
                self.positions@ == ps,
                self.velocities@.len() == n,
                i <= n,
                forall|v: V, a: P, b: P| call_requires(acc, (v, a, b)),
                forall|k: int| i <= k < n ==> #[trigger] self.velocities@[k] == vs[k],
                forall|k: int|
                    0 <= k < i ==> accumulated(acc, ps, k, n as int, vs[k], #[trigger] self.velocities@[k]),
            decreases n - i,
        {
            let pi = self.positions[i];
            let mut v = self.velocities[i];
            let mut j: usize = 0;
            while j < n
                invariant
                    n == ps.len(),
                    vs.len() == n,
                    self.positions@ == ps,
                    i < n,
                    j <= n,
                    pi == ps[i as int],
                    forall|v: V, a: P, b: P| call_requires(acc, (v, a, b)),
                    accumulated(acc, ps, i as int, j as int, vs[i as int], v),
                decreases n - j,
            {
                if j != i {
                    let w = v;
                    let pj = self.positions[j];
                    v = acc(w, pi, pj);
                    proof {
                        lemma_accumulated_next(acc, ps, i as int, j + 1, vs[i as int], w, v);
                    }
                } else {
                    assert(accumulated(acc, ps, i as int, j + 1, vs[i as int], v));
                }
                j = j + 1;
            }
            self.velocities.set(i, v);
            i = i + 1;
        }
        let ghost vs2 = self.velocities@;
        let mut i: usize = 0;
        while i < n
            invariant
                n == ps.len(),
                self.positions@.len() == n,
                self.velocities@ == vs2,
                vs2.len() == n,
                i <= n,
                forall|a: P, v: V| call_requires(adv, (a, v)),
                forall|k: int| i <= k < n ==> #[trigger] self.positions@[k] == ps[k],
                forall|k: int|
                    0 <= k < i ==> call_ensures(adv, (ps[k], vs2[k]), #[trigger] self.positions@[k]),
            decreases n - i,
        {
            let p = adv(self.positions[i], self.velocities[i]);
            self.positions.set(i, p);
            i = i + 1;
        }
    }
}

} // verus!
