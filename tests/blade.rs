use propeller_sweep::blade::resolve_blade;

#[test]
fn particles_outside_reach_are_never_touched() {
    let mut p = vec![10i64, -20, 30];
    let v = vec![1i64, 2, 3];
    let after = resolve_blade(
        0i64,
        &mut p,
        &v,
        |_q: i64| false,
        |s: i64, _q: i64, w: i64| Some(s + w),
        |_q: i64| 0,
    );
    assert_eq!(after, 0);
    assert_eq!(p, vec![10, -20, 30]);
    assert_eq!(v, vec![1, 2, 3]);
}

#[test]
fn struck_particles_are_relocated_and_change_the_blade() {
    // reach: |q| < 5; struck when the blade state is even
    let mut p = vec![1i64, 7, 2, 3, -9];
    let v = vec![10i64, 20, 30, 40, 50];
    let after = resolve_blade(
        0i64,
        &mut p,
        &v,
        |q: i64| q.abs() < 5,
        |s: i64, _q: i64, w: i64| if s % 2 == 0 { Some(s + w + 1) } else { None },
        |q: i64| q + 100,
    );
    // particle 0 struck (state 0 -> 11), particle 2 not (11 is odd), particle 3 not
    assert_eq!(after, 11);
    assert_eq!(p, vec![101, 7, 2, 3, -9]);
}

#[test]
fn several_particles_can_be_struck_in_one_pass() {
    let mut p = vec![0i64, 1, 2];
    let v = vec![5i64, 6, 7];
    let after = resolve_blade(
        0i64,
        &mut p,
        &v,
        |_q: i64| true,
        |s: i64, _q: i64, w: i64| Some(s + w),
        |_q: i64| 42,
    );
    assert_eq!(after, 18);
    assert_eq!(p, vec![42, 42, 42]);
}

#[test]
fn pass_over_no_particles_keeps_the_blade() {
    let mut p: Vec<i64> = Vec::new();
    let v: Vec<i64> = Vec::new();
    let after = resolve_blade(3i64, &mut p, &v, |_q: i64| true, |s: i64, _q: i64, _w: i64| Some(s + 1), |q: i64| q);
    assert_eq!(after, 3);
}
