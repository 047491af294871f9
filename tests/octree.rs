use space::folder::unzip;
use space::morton::{encode, CELLS_PER_AXIS};
use space::region::{FRACTION_BITS, MAX_LEVEL, MIN_LEVEL};
use space::{CenteredLeveledRegion, Folder, KeyCollector, LeafCount, LeveledRegion, NullFolder, Point};

const ONE: i64 = 1 << 24;

fn pt(x: i64, y: i64, z: i64) -> Point {
    Point { x, y, z }
}

fn centered(level: i32, center: Point) -> CenteredLeveledRegion {
    CenteredLeveledRegion { leveled_region: LeveledRegion(level), center }
}

#[test]
fn fraction_bits_match_unit() {
    assert_eq!(1i64 << FRACTION_BITS, ONE);
    assert_eq!(MIN_LEVEL, -FRACTION_BITS);
}

#[test]
fn discretize_inside_and_outside() {
    let region = LeveledRegion(0);
    assert!(region.discretize(pt(ONE / 2, ONE / 2, ONE / 2)).is_some());
    assert!(region.discretize(pt(3 * ONE / 2, 3 * ONE / 2, 3 * ONE / 2)).is_none());
}

#[test]
fn discretize_key_of_half() {
    assert_eq!(LeveledRegion(0).discretize(pt(ONE / 2, ONE / 2, ONE / 2)), Some(9079256848778919936));
}

#[test]
fn discretize_accepts_upper_bound() {
    let region = LeveledRegion(0);
    assert_eq!(region.discretize(pt(ONE, ONE, ONE)), Some(u64::MAX >> 1));
}

#[test]
fn discretize_accepts_lower_bound() {
    assert_eq!(LeveledRegion(0).discretize(pt(-ONE, -ONE, -ONE)), Some(0));
}

#[test]
fn discretize_rejects_one_axis_just_outside() {
    let region = LeveledRegion(0);
    assert_eq!(region.discretize(pt(0, ONE + 1, 0)), None);
    assert_eq!(region.discretize(pt(0, 0, -ONE - 1)), None);
}

#[test]
fn discretize_negative_level() {
    let region = LeveledRegion(-1);
    assert_eq!(region.discretize(pt(ONE / 4, ONE / 4, ONE / 4)), Some(9079256848778919936));
    assert!(region.discretize(pt(ONE / 2, 0, 0)).is_some());
    assert!(region.discretize(pt(3 * ONE / 4, 0, 0)).is_none());
}

#[test]
fn discretize_extreme_levels() {
    assert_eq!(LeveledRegion(MIN_LEVEL).discretize(pt(1, 1, 1)), Some(u64::MAX >> 1));
    assert_eq!(LeveledRegion(MIN_LEVEL).discretize(pt(2, 0, 0)), None);
    assert!(LeveledRegion(MAX_LEVEL).discretize(pt(1 << 62, -(1 << 62), 0)).is_some());
    assert!(LeveledRegion(MAX_LEVEL).discretize(pt(i64::MAX, 0, 0)).is_none());
}

#[test]
fn encode_interleaves_bits() {
    assert_eq!(encode(1, 0, 0), 1);
    assert_eq!(encode(0, 1, 0), 2);
    assert_eq!(encode(0, 0, 1), 4);
    assert_eq!(encode(3, 0, 0), 9);
    assert_eq!(encode(1, 2, 3), 53);
    let top = CELLS_PER_AXIS - 1;
    assert_eq!(encode(top, top, top), u64::MAX >> 1);
}

#[test]
fn centered_discretize_measures_from_centre() {
    let region = centered(0, pt(2 * ONE, 2 * ONE, 2 * ONE));
    let p = pt(2 * ONE + ONE / 2, 2 * ONE + ONE / 2, 2 * ONE + ONE / 2);
    assert_eq!(region.discretize(p), LeveledRegion(0).discretize(pt(ONE / 2, ONE / 2, ONE / 2)));
    assert_eq!(region.discretize(pt(3 * ONE, 2 * ONE, 2 * ONE)), Some(encode(CELLS_PER_AXIS - 1, 1 << 20, 1 << 20)));
    assert_eq!(region.discretize(pt(3 * ONE + 1, 2 * ONE, 2 * ONE)), None);
}

#[test]
fn centered_discretize_far_point() {
    let region = centered(0, pt(i64::MAX, 0, 0));
    assert_eq!(region.discretize(pt(i64::MIN, 0, 0)), None);
}

#[test]
fn expand_loc_inside_is_none() {
    let region = centered(0, pt(0, 0, 0));
    assert_eq!(region.expand_loc(pt(ONE / 2, ONE / 2, ONE / 2)), None);
    assert_eq!(region.expand_loc(pt(-ONE, -ONE, -ONE)), None);
    assert_eq!(region.expand_loc(pt(ONE - 1, 0, -ONE)), None);
}

#[test]
fn expand_loc_upper_end_needs_expansion() {
    let region = centered(0, pt(0, 0, 0));
    assert_eq!(region.expand_loc(pt(ONE, 0, 0)), Some(0));
    assert_eq!(region.expand_loc(pt(0, ONE, -ONE / 2)), Some(4));
}

#[test]
fn expand_loc_below_sets_bit() {
    let region = centered(0, pt(0, 0, 0));
    assert_eq!(region.expand_loc(pt(-3 * ONE / 2, 0, -ONE / 2)), Some(5));
    assert_eq!(region.expand_loc(pt(0, -2 * ONE, 0)), Some(2));
    assert_eq!(region.expand_loc(pt(-5 * ONE, -5 * ONE, -5 * ONE)), Some(7));
}

#[test]
fn expand_loc_inside_axes_follow_centre() {
    let region = centered(1, pt(ONE, ONE, ONE));
    assert_eq!(region.expand_loc(pt(4 * ONE, ONE - 1, ONE)), Some(2));
}

#[test]
fn expand_shifts_centre_and_level() {
    let mut region = centered(0, pt(0, 0, 0));
    region.expand(5);
    assert_eq!(region, centered(1, pt(-ONE, ONE, -ONE)));
    region.expand(2);
    assert_eq!(region, centered(2, pt(ONE, -ONE, ONE)));
}

#[test]
fn expand_covers_previously_rejected_point() {
    let mut region = centered(0, pt(0, 0, 0));
    let p = pt(3 * ONE / 2, 0, 0);
    assert_eq!(region.discretize(p), None);
    let o = region.expand_loc(p).unwrap();
    region.expand(o);
    assert_eq!(region.leveled_region, LeveledRegion(1));
    assert!(region.discretize(p).is_some());
}

#[test]
fn expansion_converges_in_log_steps() {
    let mut region = centered(0, pt(0, 0, 0));
    let p = pt(10 * ONE, -3 * ONE, ONE / 4);
    let mut steps = 0;
    while region.discretize(p).is_none() {
        let o = region.expand_loc(p).unwrap();
        region.expand(o);
        steps += 1;
        assert!(steps <= 4);
    }
    assert!(steps >= 1);
    assert_eq!(region.leveled_region.0, steps);
}

fn leaf_keys() -> Vec<u64> {
    vec![0, 1, 2, 3, 8, 9, 10, 11]
}

fn fold_tree<F: Folder<(), u64>>(f: &F) -> F::Sum {
    let keys = leaf_keys();
    let mut groups = Vec::new();
    for g in 0..2 {
        let mut sums = Vec::new();
        for k in &keys[4 * g..4 * g + 4] {
            sums.push(f.gather(*k, &()));
        }
        groups.push(f.fold(sums));
    }
    f.fold(groups)
}

#[test]
fn composite_matches_separate_runs() {
    let count = fold_tree(&LeafCount);
    let keys = fold_tree(&KeyCollector);
    let both = fold_tree(&(LeafCount, KeyCollector));
    assert_eq!(count, 8);
    assert_eq!(keys, leaf_keys());
    assert_eq!(both, (count, keys));
}

#[test]
fn nested_composite_of_three() {
    let r = fold_tree(&((LeafCount, KeyCollector), NullFolder));
    assert_eq!(r, ((8, leaf_keys()), ()));
}

#[test]
fn null_folder_yields_unit() {
    let f = NullFolder;
    assert_eq!(Folder::<u8, u64>::gather(&f, 5, &7u8), ());
    assert_eq!(Folder::<u8, u64>::fold(&f, vec![(), (), ()]), ());
    assert_eq!(fold_tree(&NullFolder), ());
}

#[test]
fn leaf_count_saturates() {
    assert_eq!(Folder::<(), u64>::fold(&LeafCount, vec![u64::MAX, 1]), u64::MAX);
    assert_eq!(Folder::<(), u64>::fold(&LeafCount, vec![2, 3, 4]), 9);
    assert_eq!(Folder::<(), u64>::gather(&LeafCount, 9, &()), 1);
}

#[test]
fn key_collector_keeps_child_order() {
    let f = KeyCollector;
    assert_eq!(Folder::<(), u64>::gather(&f, 42, &()), vec![42]);
    assert_eq!(Folder::<(), u64>::fold(&f, vec![vec![5, 6], vec![], vec![1]]), vec![5, 6, 1]);
}

#[test]
fn unzip_splits_pairs() {
    let (a, b) = unzip(vec![(1u8, 'a'), (2, 'b'), (3, 'c')]);
    assert_eq!(a, vec![1, 2, 3]);
    assert_eq!(b, vec!['a', 'b', 'c']);
}

#[test]
fn triple_composite_flat_sum() {
    let r = fold_tree(&(LeafCount, KeyCollector, NullFolder));
    assert_eq!(r, (8, leaf_keys(), ()));
}

#[test]
fn reference_folds_like_folder() {
    let f = LeafCount;
    assert_eq!(fold_tree(&&f), 8);
}
