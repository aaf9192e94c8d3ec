//! The pass of the blade over the particle set. Each particle is offered to
//! the blade once per tick: only one inside the blade's reach (its thin
//! vertical slab and its sweep disk) can be struck, a struck particle
//! changes the blade's state and is moved to a fresh position, and no
//! particle's velocity is touched.
use vstd::prelude::*;

verus! {

/// One particle offered to the blade: the blade goes from state `s` to `s2`
/// and the particle from position `p` (velocity `v`) to `p2`. Either the
/// particle was judged outside the reach, or inside and not struck, and
/// nothing changed; or it was judged inside and struck, the blade took the
/// state that `strike` gave, and the particle moved to what `relocate` gave.
pub open spec fn blade_step<
    P,
    V,
    S,
    G: Fn(P) -> bool,
    H: Fn(S, P, V) -> Option<S>,
    R: Fn(P) -> P,
>(in_reach: G, strike: H, relocate: R, s: S, p: P, v: V, s2: S, p2: P) -> bool {
    ||| {
        &&& s2 == s
        &&& p2 == p
        &&& in_reach.ensures((p,), false) || (in_reach.ensures((p,), true) && strike.ensures(
            (s, p, v),
            None,
        ))
    }
    ||| {
        &&& in_reach.ensures((p,), true)
        &&& strike.ensures((s, p, v), Some(s2))
        &&& relocate.ensures((p,), p2)
    }
}

/// `states` is the sequence of blade states through a pass that took the
/// particles from `before` to `after`: it starts at `blade`, ends at
/// `after_blade`, and particle `k` takes it from `states[k]` to
/// `states[k + 1]` by `blade_step`.
pub open spec fn blade_trace<
    P,
    V,
    S,
    G: Fn(P) -> bool,
    H: Fn(S, P, V) -> Option<S>,
    R: Fn(P) -> P,
>(
    in_reach: G,
    strike: H,
    relocate: R,
    blade: S,
    before: Seq<P>,
    velocities: Seq<V>,
    after_blade: S,
    after: Seq<P>,
    states: Seq<S>,
) -> bool {
    &&& states.len() == before.len() + 1
    &&& after.len() == before.len()
    &&& states[0] == blade
    &&& states[before.len() as int] == after_blade
    &&& forall|k: int|
        0 <= k < before.len() ==> #[trigger] blade_step(
            in_reach,
            strike,
            relocate,
            states[k],
            before[k],
            velocities[k],
            states[k + 1],
            after[k],
        )
}

/// A particle that the reach test cannot accept is neither relocated nor
/// does it change the blade's state: in any trace of a pass, it keeps its
/// position and the blade's state before it is the state after it.
pub proof fn lemma_outside_reach_untouched<
    P,
    V,
    S,
    G: Fn(P) -> bool,
    H: Fn(S, P, V) -> Option<S>,
    R: Fn(P) -> P,
>(
    in_reach: G,
    strike: H,
    relocate: R,
    blade: S,
    before: Seq<P>,
    velocities: Seq<V>,
    after_blade: S,
    after: Seq<P>,
    states: Seq<S>,
    k: int,
)
    requires
        blade_trace(
            in_reach,
            strike,
            relocate,
            blade,
            before,
            velocities,
            after_blade,
            after,
            states,
        ),
        0 <= k < before.len(),
        !in_reach.ensures((before[k],), true),
    ensures
        after[k] == before[k],
        states[k + 1] == states[k],
{
    assert(blade_step(
        in_reach,
        strike,
        relocate,
        states[k],
        before[k],
        velocities[k],
        states[k + 1],
        after[k],
    ));
}

/// Offers every particle, in order, to the blade whose state is `blade`.
/// A particle that `in_reach` judges outside the blade's reach is skipped.
/// For one inside, `strike` decides from the blade's current state, the
/// particle's position and its velocity whether the particle was struck,
/// and gives the blade's new state; a struck particle moves to what
/// `relocate` gives. Returns the blade's state after the pass. The blade's
/// state changes only through strikes, and velocities are never touched.
pub fn resolve_blade<
    P: Copy,
    V: Copy,
    S: Copy,
    G: Fn(P) -> bool,
    H: Fn(S, P, V) -> Option<S>,
    R: Fn(P) -> P,
>(
    blade: S,
    positions: &mut Vec<P>,
    velocities: &Vec<V>,
    in_reach: G,
    strike: H,
    relocate: R,
) -> (after: S)
    requires
        old(positions)@.len() == velocities@.len(),
        forall|p: P| in_reach.requires((p,)),
        forall|s: S, p: P, v: V| strike.requires((s, p, v)),
        forall|p: P| relocate.requires((p,)),
    ensures
        exists|states: Seq<S>|
            blade_trace(
                in_reach,
                strike,
                relocate,
                blade,
                old(positions)@,
                velocities@,
                after,
                final(positions)@,
                states,
            ),
{
    let n: usize = positions.len();
    let mut state = blade;
    let ghost states: Seq<S> = seq![blade];
    let mut k: usize = 0;
    while k < n
        invariant
            k <= n,
            n == old(positions)@.len(),
            positions@.len() == n,
            velocities@.len() == n,
            states.len() == k + 1,
            states[0] == blade,
            states[k as int] == state,
            forall|m: int|
                0 <= m < k ==> #[trigger] blade_step(
                    in_reach,
                    strike,
                    relocate,
                    states[m],
                    old(positions)@[m],
                    velocities@[m],
                    states[m + 1],
                    positions@[m],
                ),
            forall|m: int| k <= m < n ==> positions@[m] == old(positions)@[m],
            forall|p: P| in_reach.requires((p,)),
            forall|s: S, p: P, v: V| strike.requires((s, p, v)),
            forall|p: P| relocate.requires((p,)),
        decreases n - k,
    {
        let p: P = positions[k];
        let v: V = velocities[k];
        let ghost before = positions@;
        let ghost s0 = state;
        if in_reach(p) {
            match strike(state, p, v) {
                Some(next) => {
                    state = next;
                    let q: P = relocate(p);
                    positions.set(k, q);
                },
                None => {},
            }
        }
        proof {
            assert(blade_step(in_reach, strike, relocate, s0, p, v, state, positions@[k as int]));
            states = states.push(state);
            assert forall|m: int| 0 <= m <= k implies #[trigger] blade_step(
                in_reach,
                strike,
                relocate,
                states[m],
                old(positions)@[m],
                velocities@[m],
                states[m + 1],
                positions@[m],
            ) by {
                if m < k {
                    assert(positions@[m] == before[m]);
                }
            }
        }
        k = k + 1;
    }
    assert(blade_trace(
        in_reach,
        strike,
        relocate,
        blade,
        old(positions)@,
        velocities@,
        state,
        positions@,
        states,
    ));
    state
}

} // verus!
