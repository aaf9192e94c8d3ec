//! The particle pair resolver: every unordered pair of particles that is
//! close enough is pushed back along its velocities, and the two particles
//! exchange velocities.
use vstd::prelude::*;

verus! {

/// The sequence `s` with the entries at `i` and `j` exchanged.
pub open spec fn swapped<V>(s: Seq<V>, i: int, j: int) -> Seq<V> {
    s.update(i, s[j]).update(j, s[i])
}

/// Exchanges the velocities of particles `i` and `j`: each leaves with the
/// velocity the other arrived with, all other particles keep theirs.
pub fn exchange_velocities<V: Copy>(velocities: &mut Vec<V>, i: usize, j: usize)
    requires
        i < old(velocities)@.len(),
        j < old(velocities)@.len(),
    ensures
        final(velocities)@ == swapped(old(velocities)@, i as int, j as int),
{
    let vi: V = velocities[i];
    let vj: V = velocities[j];
    velocities.set(i, vj);
    velocities.set(j, vi);
}

/// Resolves one collision between particles `i` and `j`: they move to
/// `pushed_i` and `pushed_j` and exchange velocities.
pub fn collide<P, V: Copy>(
    positions: &mut Vec<P>,
    velocities: &mut Vec<V>,
    i: usize,
    j: usize,
    pushed_i: P,
    pushed_j: P,
)
    requires
        i < j < old(positions)@.len(),
        old(velocities)@.len() == old(positions)@.len(),
    ensures
        final(positions)@ == old(positions)@.update(i as int, pushed_i).update(j as int, pushed_j),
        final(velocities)@ == swapped(old(velocities)@, i as int, j as int),
        final(velocities)@.to_multiset() == old(velocities)@.to_multiset(),
{
    positions.set(i, pushed_i);
    positions.set(j, pushed_j);
    exchange_velocities(velocities, i, j);
    proof {
        lemma_exchange_preserves_velocities(old(velocities)@, i as int, j as int);
    }
}

/// The pairs `(i, i + 1), ..., (i, n - 1)` of `n` particles.
pub open spec fn pair_row(n: int, i: int) -> Seq<(int, int)> {
    Seq::new((n - i - 1) as nat, |m: int| (i, i + 1 + m))
}

/// The pairs of the first `i` rows, row by row.
pub open spec fn pairs_upto(n: int, i: int) -> Seq<(int, int)>
    decreases i,
{
    if i <= 0 {
        Seq::empty()
    } else {
        pairs_upto(n, i - 1) + pair_row(n, i - 1)
    }
}

/// Every unordered pair `i < j` of `n` particles, `i` ascending and then
/// `j` ascending.
pub open spec fn pair_order(n: int) -> Seq<(int, int)> {
    pairs_upto(n, n)
}

/// No pair of distinct particles at positions `ps` can be judged close.
pub open spec fn no_close_pair<P, C: Fn(P, P) -> bool>(close: C, ps: Seq<P>) -> bool {
    forall|i: int, j: int|
        0 <= i < j < ps.len() ==> !#[trigger] close.ensures((ps[i], ps[j]), true)
}

/// The pair `(i, j)` is resolved: positions and velocities go from `ps`,
/// `vs` to `ps2`, `vs2`. Either `close` judged the pair's current positions
/// not close and nothing changed; or it judged them close, each of the two
/// moved to what `push_back` gives for its own position and velocity, all
/// other positions were kept, and the two exchanged velocities.
pub open spec fn pair_step<P, V, C: Fn(P, P) -> bool, B: Fn(P, V) -> P>(
    close: C,
    push_back: B,
    ps: Seq<P>,
    vs: Seq<V>,
    i: int,
    j: int,
    ps2: Seq<P>,
    vs2: Seq<V>,
) -> bool {
    ||| {
        &&& close.ensures((ps[i], ps[j]), false)
        &&& ps2 == ps
        &&& vs2 == vs
    }
    ||| {
        &&& close.ensures((ps[i], ps[j]), true)
        &&& push_back.ensures((ps[i], vs[i]), ps2[i])
        &&& push_back.ensures((ps[j], vs[j]), ps2[j])
        &&& ps2 == ps.update(i, ps2[i]).update(j, ps2[j])
        &&& vs2 == swapped(vs, i, j)
    }
}

/// `pt` and `vt` are the positions and velocities through a pass of the
/// pair resolver over `n` particles: they start at `ps`, `vs`, end at
/// `ps2`, `vs2`, and step `m` resolves the `m`-th pair of `pair_order(n)`.
pub open spec fn pair_trace<P, V, C: Fn(P, P) -> bool, B: Fn(P, V) -> P>(
    close: C,
    push_back: B,
    n: int,
    ps: Seq<P>,
    vs: Seq<V>,
    ps2: Seq<P>,
    vs2: Seq<V>,
    pt: Seq<Seq<P>>,
    vt: Seq<Seq<V>>,
) -> bool {
    let order = pair_order(n);
    &&& pt.len() == order.len() + 1
    &&& vt.len() == order.len() + 1
    &&& pt[0] == ps
    &&& vt[0] == vs
    &&& pt[order.len() as int] == ps2
    &&& vt[order.len() as int] == vs2
    &&& forall|m: int|
        0 <= m < order.len() ==> #[trigger] pair_step(
            close,
            push_back,
            pt[m],
            vt[m],
            order[m].0,
            order[m].1,
            pt[m + 1],
            vt[m + 1],
        )
}

/// One pass of the pair resolver over all unordered pairs `i < j`, `i`
/// ascending and then `j` ascending (see `pair_trace`). Where `close` judges
/// the current positions of a pair close, each of the two particles moves to
/// what `push_back` gives for its position and its own velocity, and then the
/// two exchange velocities (see `collide`). The particle count is kept, the
/// velocities of the whole set are permuted, and where no pair of the
/// starting positions can be judged close, nothing changes.
pub fn resolve_pairs<P: Copy, V: Copy, C: Fn(P, P) -> bool, B: Fn(P, V) -> P>(
    positions: &mut Vec<P>,
    velocities: &mut Vec<V>,
    close: C,
    push_back: B,
)
    requires
        old(velocities)@.len() == old(positions)@.len(),
        forall|a: P, b: P| close.requires((a, b)),
        forall|p: P, v: V| push_back.requires((p, v)),
    ensures
        final(positions)@.len() == old(positions)@.len(),
        final(velocities)@.len() == old(velocities)@.len(),
        final(velocities)@.to_multiset() == old(velocities)@.to_multiset(),
        exists|pt: Seq<Seq<P>>, vt: Seq<Seq<V>>|
            pair_trace(
                close,
                push_back,
                old(positions)@.len() as int,
                old(positions)@,
                old(velocities)@,
                final(positions)@,
                final(velocities)@,
                pt,
                vt,
            ),
        no_close_pair(close, old(positions)@) ==> final(positions)@ == old(positions)@
            && final(velocities)@ == old(velocities)@,
{
    let n: usize = positions.len();
    let ghost done: Seq<(int, int)> = Seq::empty();
    let ghost pt: Seq<Seq<P>> = seq![positions@];
    let ghost vt: Seq<Seq<V>> = seq![velocities@];
    let mut i: usize = 0;
    while i < n
        invariant
            i <= n,
            positions@.len() == n,
            velocities@.len() == n,
            n == old(positions)@.len(),
            velocities@.to_multiset() == old(velocities)@.to_multiset(),
            no_close_pair(close, old(positions)@) ==> positions@ == old(positions)@
                && velocities@ == old(velocities)@,
            done == pairs_upto(n as int, i as int),
            pt.len() == done.len() + 1,
            vt.len() == done.len() + 1,
            pt[0] == old(positions)@,
            vt[0] == old(velocities)@,
            pt[done.len() as int] == positions@,
            vt[done.len() as int] == velocities@,
            forall|m: int|
                0 <= m < done.len() ==> #[trigger] pair_step(
                    close,
                    push_back,
                    pt[m],
                    vt[m],
                    done[m].0,
                    done[m].1,
                    pt[m + 1],
                    vt[m + 1],
                ),
            forall|a: P, b: P| close.requires((a, b)),
            forall|p: P, v: V| push_back.requires((p, v)),
        decreases n - i,
    {
        let mut j: usize = i + 1;
        assert(done =~= pairs_upto(n as int, i as int) + pair_row(n as int, i as int).take(0));
        while j < n
            invariant
                i < j <= n,
                positions@.len() == n,
                velocities@.len() == n,
                n == old(positions)@.len(),
                velocities@.to_multiset() == old(velocities)@.to_multiset(),
                no_close_pair(close, old(positions)@) ==> positions@ == old(positions)@
                    && velocities@ == old(velocities)@,
                done == pairs_upto(n as int, i as int) + pair_row(n as int, i as int).take(
                    j - i - 1,
                ),
                pt.len() == done.len() + 1,
                vt.len() == done.len() + 1,
                pt[0] == old(positions)@,
                vt[0] == old(velocities)@,
                pt[done.len() as int] == positions@,
                vt[done.len() as int] == velocities@,
                forall|m: int|
                    0 <= m < done.len() ==> #[trigger] pair_step(
                        close,
                        push_back,
                        pt[m],
                        vt[m],
                        done[m].0,
                        done[m].1,
                        pt[m + 1],
                        vt[m + 1],
                    ),
                forall|a: P, b: P| close.requires((a, b)),
                forall|p: P, v: V| push_back.requires((p, v)),
            decreases n - j,
        {
            let ghost ps = positions@;
            let ghost vs = velocities@;
            let pi: P = positions[i];
            let pj: P = positions[j];
            if close(pi, pj) {
                let qi: P = push_back(pi, velocities[i]);
                let qj: P = push_back(pj, velocities[j]);
                collide(positions, velocities, i, j, qi, qj);
                assert(positions@ =~= ps.update(i as int, positions@[i as int]).update(
                    j as int,
                    positions@[j as int],
                ));
            }
            proof {
                assert(pair_step(
                    close,
                    push_back,
                    ps,
                    vs,
                    i as int,
                    j as int,
                    positions@,
                    velocities@,
                ));
                let k = done.len() as int;
                assert(pair_row(n as int, i as int).take(j - i) =~= pair_row(
                    n as int,
                    i as int,
                ).take(j - i - 1).push((i as int, j as int)));
                done = done.push((i as int, j as int));
                pt = pt.push(positions@);
                vt = vt.push(velocities@);
                assert forall|m: int| 0 <= m < done.len() implies #[trigger] pair_step(
                    close,
                    push_back,
                    pt[m],
                    vt[m],
                    done[m].0,
                    done[m].1,
                    pt[m + 1],
                    vt[m + 1],
                ) by {
                    if m < k {
                        assert(pt[m] == pt.drop_last()[m]);
                    }
                }
            }
            j = j + 1;
        }
        assert(pair_row(n as int, i as int).take(n - i - 1) =~= pair_row(n as int, i as int));
        assert(pairs_upto(n as int, i + 1) == pairs_upto(n as int, i as int) + pair_row(
            n as int,
            i as int,
        ));
        i = i + 1;
    }
    assert(pair_trace(
        close,
        push_back,
        n as int,
        old(positions)@,
        old(velocities)@,
        positions@,
        velocities@,
        pt,
        vt,
    ));
}

/// In any pass, a pair that was resolved as a collision (not judged
/// apart) leaves with each other's velocity, every other particle keeps its
/// velocity, and each of the two moved to what `push_back` gave for its own
/// position and velocity: the pair's momentum is kept exactly.
pub proof fn lemma_colliding_pair_exchanges<P, V, C: Fn(P, P) -> bool, B: Fn(P, V) -> P>(
    close: C,
    push_back: B,
    n: int,
    ps: Seq<P>,
    vs: Seq<V>,
    ps2: Seq<P>,
    vs2: Seq<V>,
    pt: Seq<Seq<P>>,
    vt: Seq<Seq<V>>,
    m: int,
)
    requires
        pair_trace(close, push_back, n, ps, vs, ps2, vs2, pt, vt),
        0 <= m < pair_order(n).len(),
        !close.ensures((pt[m][pair_order(n)[m].0], pt[m][pair_order(n)[m].1]), false),
    ensures
        ({
            let (i, j) = pair_order(n)[m];
            &&& vt[m + 1] == swapped(vt[m], i, j)
            &&& push_back.ensures((pt[m][i], vt[m][i]), pt[m + 1][i])
            &&& push_back.ensures((pt[m][j], vt[m][j]), pt[m + 1][j])
        }),
{
    let order = pair_order(n);
    assert(pair_step(
        close,
        push_back,
        pt[m],
        vt[m],
        order[m].0,
        order[m].1,
        pt[m + 1],
        vt[m + 1],
    ));
}

/// With two particles the pass resolves the single pair `(0, 1)`: where it is
/// judged close and not apart, both are pushed back along their own
/// velocities and they exchange velocities; where it is judged apart and not
/// close, nothing changes.
pub proof fn lemma_two_particles<P, V, C: Fn(P, P) -> bool, B: Fn(P, V) -> P>(
    close: C,
    push_back: B,
    ps: Seq<P>,
    vs: Seq<V>,
    ps2: Seq<P>,
    vs2: Seq<V>,
    pt: Seq<Seq<P>>,
    vt: Seq<Seq<V>>,
)
    requires
        ps.len() == 2,
        vs.len() == 2,
        pair_trace(close, push_back, 2, ps, vs, ps2, vs2, pt, vt),
    ensures
        close.ensures((ps[0], ps[1]), true) && !close.ensures((ps[0], ps[1]), false) ==> {
            &&& vs2 == seq![vs[1], vs[0]]
            &&& ps2.len() == 2
            &&& push_back.ensures((ps[0], vs[0]), ps2[0])
            &&& push_back.ensures((ps[1], vs[1]), ps2[1])
        },
        close.ensures((ps[0], ps[1]), false) && !close.ensures((ps[0], ps[1]), true) ==> ps2 == ps
            && vs2 == vs,
{
    assert(pair_row(2, 0) =~= seq![(0int, 1int)]);
    assert(pair_row(2, 1) =~= Seq::<(int, int)>::empty());
    assert(pairs_upto(2, 0) == Seq::<(int, int)>::empty());
    assert(pairs_upto(2, 1) =~= seq![(0int, 1int)]);
    assert(pairs_upto(2, 2) =~= seq![(0int, 1int)]);
    assert(pair_order(2) =~= seq![(0int, 1int)]);
    assert(pair_order(2)[0] == (0int, 1int));
    let order = pair_order(2);
    assert(pair_step(close, push_back, pt[0], vt[0], order[0].0, order[0].1, pt[0int + 1], vt[0int + 1]));
    assert(pair_step(close, push_back, pt[0], vt[0], 0, 1, pt[1], vt[1]));
    assert(swapped(vs, 0, 1) =~= seq![vs[1], vs[0]]);
}

/// Exchanging two velocities is a permutation: the multiset of velocities
/// of the whole particle set is the same before and after, and the two
/// particles of the pair leave with each other's velocity, so whatever the
/// pair carried together it still carries.
pub proof fn lemma_exchange_preserves_velocities<V>(s: Seq<V>, i: int, j: int)
    requires
        0 <= i < s.len(),
        0 <= j < s.len(),
    ensures
        swapped(s, i, j).to_multiset() == s.to_multiset(),
        swapped(s, i, j).len() == s.len(),
        swapped(s, i, j)[i] == s[j],
        swapped(s, i, j)[j] == s[i],
        forall|k: int| 0 <= k < s.len() && k != i && k != j ==> #[trigger] swapped(s, i, j)[k] == s[k],
{
    broadcast use vstd::seq_lib::to_multiset_update;
    broadcast use vstd::seq_lib::to_multiset_contains;
    broadcast use vstd::multiset::group_multiset_axioms;
    let m = s.to_multiset();
    let t = s.update(i, s[j]);
    assert(t.len() == s.len());
    assert(t[j] == s[j]);
    assert(s.contains(s[i]));
    assert(s.contains(s[j]));
    assert(t.to_multiset() == m.insert(s[j]).remove(s[i]));
    assert(swapped(s, i, j).to_multiset() == t.to_multiset().insert(s[i]).remove(s[j]));
    assert(m.insert(s[j]).remove(s[i]).insert(s[i]).remove(s[j]) =~= m);
}

} // verus!
