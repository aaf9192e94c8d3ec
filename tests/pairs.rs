use propeller_sweep::pairs::{collide, exchange_velocities, resolve_pairs};

#[test]
fn exchange_swaps_the_pair() {
    let mut v = vec![[1.0f32, 0.0, 0.0], [0.0, 2.0, 0.0], [0.0, 0.0, 3.0]];
    exchange_velocities(&mut v, 0, 2);
    assert_eq!(v, vec![[0.0, 0.0, 3.0], [0.0, 2.0, 0.0], [1.0, 0.0, 0.0]]);
}

#[test]
fn exchange_of_one_particle_with_itself_changes_nothing() {
    let mut v = vec![5i32, 6, 7];
    exchange_velocities(&mut v, 1, 1);
    assert_eq!(v, vec![5, 6, 7]);
}

#[test]
fn exchange_preserves_pair_momentum_and_the_velocity_multiset() {
    let mut v = vec![[1i64, -2, 3], [4, 5, -6], [7, 8, 9], [-1, 0, 2]];
    let before_sum: i64 = v[1].iter().sum::<i64>() + v[3].iter().sum::<i64>();
    let mut before = v.clone();
    exchange_velocities(&mut v, 3, 1);
    let after_sum: i64 = v[1].iter().sum::<i64>() + v[3].iter().sum::<i64>();
    assert_eq!(before_sum, after_sum);
    assert_eq!(v[1], [-1, 0, 2]);
    assert_eq!(v[3], [4, 5, -6]);
    let mut after = v.clone();
    before.sort();
    after.sort();
    assert_eq!(before, after);
}

#[test]
fn collide_moves_both_and_swaps_velocities() {
    let mut p = vec![10i64, 20, 30];
    let mut v = vec![1i64, 2, 3];
    collide(&mut p, &mut v, 0, 2, 9, 27);
    assert_eq!(p, vec![9, 20, 27]);
    assert_eq!(v, vec![3, 2, 1]);
}

#[test]
fn pass_resolves_only_close_pairs() {
    let mut p = vec![0i64, 10, 1];
    let mut v = vec![1i64, 2, 3];
    resolve_pairs(&mut p, &mut v, |a: i64, b: i64| (a - b).abs() <= 1, |q: i64, w: i64| q - w);
    assert_eq!(p, vec![-1, 10, -2]);
    assert_eq!(v, vec![3, 2, 1]);
}

#[test]
fn pass_visits_pairs_in_order() {
    let mut p = vec![0i64, 0, 0];
    let mut v = vec![7i64, 8, 9];
    resolve_pairs(&mut p, &mut v, |a: i64, b: i64| a == b, |q: i64, _w: i64| q);
    assert_eq!(p, vec![0, 0, 0]);
    assert_eq!(v, vec![9, 8, 7]);
}

#[test]
fn pass_with_no_close_pair_changes_nothing() {
    let mut p = vec![[0.0f32, 0.0, 0.0], [1.0, 0.0, 0.0], [0.0, 3.0, 0.0]];
    let mut v = vec![[1.0f32, 0.0, 0.0], [0.0, 1.0, 0.0], [0.0, 0.0, 1.0]];
    let (p0, v0) = (p.clone(), v.clone());
    resolve_pairs(
        &mut p,
        &mut v,
        |a: [f32; 3], b: [f32; 3]| {
            let d: f32 = (0..3).map(|k| (a[k] - b[k]) * (a[k] - b[k])).sum();
            d.sqrt() <= 0.2
        },
        |q: [f32; 3], w: [f32; 3]| [q[0] - w[0], q[1] - w[1], q[2] - w[2]],
    );
    assert_eq!(p, p0);
    assert_eq!(v, v0);
}

#[test]
fn pass_on_empty_and_single_particle_sets() {
    let mut p: Vec<i64> = Vec::new();
    let mut v: Vec<i64> = Vec::new();
    resolve_pairs(&mut p, &mut v, |_a: i64, _b: i64| true, |q: i64, _w: i64| q);
    assert!(p.is_empty() && v.is_empty());
    let mut p = vec![4i64];
    let mut v = vec![5i64];
    resolve_pairs(&mut p, &mut v, |_a: i64, _b: i64| true, |q: i64, w: i64| q - w);
    assert_eq!((p, v), (vec![4], vec![5]));
}

#[test]
fn pair_brought_together_earlier_in_the_pass_is_resolved() {
    let mut p = vec![0i64, 0, 3];
    let mut v = vec![-3i64, 1, 9];
    resolve_pairs(&mut p, &mut v, |a: i64, b: i64| a == b, |q: i64, w: i64| q - w);
    // (0,1) collide: 0 -> 3, 0 -> -1, velocities [1, -3, 9]
    // (0,2) now collide: 3 -> 2, 3 -> -6, velocities [9, -3, 1]
    assert_eq!(p, vec![2, -1, -6]);
    assert_eq!(v, vec![9, -3, 1]);
}
