//! The two-stage finalizer's temporal summary on synthetic day sequences.
use dpt::st::aggregate::finalize_daily;

#[test]
fn adjacency_gap_walk_on_gaps_1_5_2() {
    // four dates with adjacent gaps [1, 5, 2]: the walk reports 5 and 2,
    // not the true global minimum 1
    let dm: Vec<(i64, i128)> = vec![(100, 10), (101, 20), (106, 30), (108, 40)];
    let e = finalize_daily(&dm);
    assert_eq!(e.max_gap, 5);
    assert_eq!(e.min_gap, 2);
    assert_eq!(e.first, 100);
    assert_eq!(e.last, 108);
}

#[test]
fn single_entry_has_zero_gaps() {
    let dm: Vec<(i64, i128)> = vec![(200, 7)];
    let e = finalize_daily(&dm);
    assert_eq!(e.first, 200);
    assert_eq!(e.last, 200);
    assert_eq!(e.max_v, 7);
    assert_eq!(e.min_v, 7);
    assert_eq!(e.max_d, 200);
    assert_eq!(e.min_d, 200);
    assert_eq!(e.max_gap, 0);
    assert_eq!(e.min_gap, 0);
}

#[test]
fn single_gap_seeds_both_extremes() {
    let dm: Vec<(i64, i128)> = vec![(100, 5), (102, 3)];
    let e = finalize_daily(&dm);
    assert_eq!(e.max_gap, 2);
    assert_eq!(e.min_gap, 2);
}

#[test]
fn value_extremes_track_their_days() {
    let dm: Vec<(i64, i128)> = vec![(10, 4), (11, 9), (12, 1), (13, 9)];
    let e = finalize_daily(&dm);
    assert_eq!(e.max_v, 9);
    // only a strictly greater value replaces the running maximum, so the
    // first day with the maximal value stays
    assert_eq!(e.max_d, 11);
    assert_eq!(e.min_v, 1);
    assert_eq!(e.min_d, 12);
}

#[test]
fn equal_gaps_change_neither_extreme() {
    // gaps [3, 3, 3]: after seeding, equal gaps leave both extremes alone
    let dm: Vec<(i64, i128)> = vec![(0, 1), (3, 1), (6, 1), (9, 1)];
    let e = finalize_daily(&dm);
    assert_eq!(e.max_gap, 3);
    assert_eq!(e.min_gap, 3);
}
