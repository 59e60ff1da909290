use block_census::block_count::{BlockCount, BlockCountError};
use block_census::names::{rank_names, same_name, Rank};
use block_census::reducer::{reduce, Dropped};
use block_census::region::RegionError;
use block_census::region::gather_region_stats;
use std::cmp::Ordering;

fn rows(acc: &BlockCount) -> Vec<(String, Vec<isize>)> {
    acc.block_count().clone()
}

fn row(name: &str, counts: &[isize]) -> (String, Vec<isize>) {
    (name.to_string(), counts.to_vec())
}

fn tallied(range: std::ops::Range<isize>, calls: &[(isize, &str)]) -> BlockCount {
    let mut acc = BlockCount::new(&range);
    for (y, name) in calls {
        acc.count_block(*y, name);
    }
    acc
}

#[test]
fn new_is_empty_over_its_range() {
    let acc = BlockCount::new(&(-64..320));
    assert_eq!(acc.world_y_range(), -64..320);
    assert!(acc.block_count().is_empty());
}

#[test]
fn new_over_empty_range() {
    let acc = BlockCount::new(&(5..5));
    assert_eq!(acc.world_y_range(), 5..5);
    assert!(acc.block_count().is_empty());
}

#[test]
fn count_block_inserts_zero_row_and_increments() {
    let mut acc = BlockCount::new(&(0..4));
    acc.count_block(2, "minecraft:stone");
    assert_eq!(rows(&acc), vec![row("minecraft:stone", &[0, 0, 1, 0])]);
}

#[test]
fn count_block_indexes_from_range_start() {
    let mut acc = BlockCount::new(&(-64..-60));
    acc.count_block(-64, "a");
    acc.count_block(-61, "a");
    acc.count_block(-61, "a");
    assert_eq!(rows(&acc), vec![row("a", &[1, 0, 0, 2])]);
}

#[test]
fn count_block_k_times_gives_k_there_and_zero_elsewhere() {
    for k in [1usize, 2, 5, 100] {
        let mut acc = BlockCount::new(&(10..15));
        for _ in 0..k {
            acc.count_block(13, "minecraft:dirt");
        }
        assert_eq!(
            rows(&acc),
            vec![row("minecraft:dirt", &[0, 0, 0, k as isize, 0])]
        );
    }
}

#[test]
fn rows_are_kept_in_name_order() {
    let acc = tallied(
        0..1,
        &[
            (0, "minecraft:stone"),
            (0, "minecraft:dirt"),
            (0, "minecraft:water"),
            (0, "minecraft:andesite"),
            (0, "minecraft:dirt"),
            (0, "minecraft:bedrock"),
        ],
    );
    let names: Vec<&str> = acc.block_count().iter().map(|r| r.0.as_str()).collect();
    assert_eq!(
        names,
        vec![
            "minecraft:andesite",
            "minecraft:bedrock",
            "minecraft:dirt",
            "minecraft:stone",
            "minecraft:water"
        ]
    );
    let mut sorted = names.clone();
    sorted.sort();
    assert_eq!(names, sorted);
    assert_eq!(acc.block_count()[2].1, vec![2]);
}

#[test]
fn names_differ_by_case() {
    let acc = tallied(0..1, &[(0, "Stone"), (0, "stone"), (0, "STONE")]);
    assert_eq!(
        rows(&acc),
        vec![row("STONE", &[1]), row("Stone", &[1]), row("stone", &[1])]
    );
}

#[test]
fn merge_end_to_end_two_files() {
    let mut file1 = tallied(0..2, &[(0, "stone"), (0, "stone"), (0, "stone")]);
    let file2 = tallied(
        0..2,
        &[(0, "stone"), (1, "stone"), (1, "stone"), (1, "dirt")],
    );
    assert_eq!(rows(&file1), vec![row("stone", &[3, 0])]);
    assert_eq!(
        rows(&file2),
        vec![row("dirt", &[0, 1]), row("stone", &[1, 2])]
    );
    assert_eq!(file1.add_block_count(file2), Ok(()));
    assert_eq!(
        rows(&file1),
        vec![row("dirt", &[0, 1]), row("stone", &[4, 2])]
    );
    assert_eq!(file1.world_y_range(), 0..2);
}

#[test]
fn merge_end_to_end_mismatching_file_is_dropped() {
    let mut total = BlockCount::new(&(0..2));
    let file1 = tallied(0..2, &[(0, "stone"), (0, "stone"), (0, "stone")]);
    let file2 = tallied(
        1..3,
        &[(1, "stone"), (2, "stone"), (2, "stone"), (2, "dirt")],
    );
    assert!(reduce(&mut total, Ok(file1.clone())).is_ok());
    match reduce(&mut total, Ok(file2)) {
        Err(Dropped::Range(e)) => assert_eq!(
            e,
            BlockCountError::MismatchingYRange {
                this: 0..2,
                other: 1..3
            }
        ),
        other => panic!("expected a range mismatch, got {:?}", other),
    }
    assert_eq!(rows(&total), rows(&file1));
    assert_eq!(rows(&total), vec![row("stone", &[3, 0])]);
    assert_eq!(total.world_y_range(), 0..2);
}

#[test]
fn merge_rejects_same_length_different_start() {
    let mut a = tallied(0..2, &[(0, "stone")]);
    let b = tallied(1..3, &[(1, "stone")]);
    let before = rows(&a);
    assert_eq!(
        a.add_block_count(b),
        Err(BlockCountError::MismatchingYRange {
            this: 0..2,
            other: 1..3
        })
    );
    assert_eq!(rows(&a), before);
    assert_eq!(a.world_y_range(), 0..2);
}

#[test]
fn merge_rejects_same_start_different_end() {
    let mut a = tallied(0..2, &[(1, "stone")]);
    let b = tallied(0..3, &[(2, "stone")]);
    assert_eq!(
        a.add_block_count(b),
        Err(BlockCountError::MismatchingYRange {
            this: 0..2,
            other: 0..3
        })
    );
    assert_eq!(rows(&a), vec![row("stone", &[0, 1])]);
}

#[test]
fn merge_rejects_same_end_different_start() {
    let mut a = BlockCount::new(&(0..4));
    let b = BlockCount::new(&(2..4));
    assert_eq!(
        a.add_block_count(b),
        Err(BlockCountError::MismatchingYRange {
            this: 0..4,
            other: 2..4
        })
    );
    assert!(a.block_count().is_empty());
}

#[test]
fn merge_adopts_rows_the_target_lacks() {
    let mut a = tallied(0..3, &[(0, "b")]);
    let b = tallied(0..3, &[(1, "a"), (2, "c"), (2, "c")]);
    assert_eq!(a.add_block_count(b), Ok(()));
    assert_eq!(
        rows(&a),
        vec![
            row("a", &[0, 1, 0]),
            row("b", &[1, 0, 0]),
            row("c", &[0, 0, 2])
        ]
    );
}

#[test]
fn merge_with_empty_changes_nothing() {
    let mut a = tallied(0..2, &[(0, "x"), (1, "y")]);
    assert_eq!(a.add_block_count(BlockCount::new(&(0..2))), Ok(()));
    assert_eq!(rows(&a), vec![row("x", &[1, 0]), row("y", &[0, 1])]);
    let mut empty = BlockCount::new(&(0..2));
    assert_eq!(empty.add_block_count(a.clone()), Ok(()));
    assert_eq!(rows(&empty), rows(&a));
}

#[test]
fn merge_is_commutative_on_values() {
    let a = tallied(-2..2, &[(-2, "s"), (0, "s"), (1, "d"), (1, "d")]);
    let b = tallied(-2..2, &[(0, "s"), (1, "w"), (-1, "d")]);
    let mut ab = a.clone();
    assert_eq!(ab.add_block_count(b.clone()), Ok(()));
    let mut ba = b.clone();
    assert_eq!(ba.add_block_count(a.clone()), Ok(()));
    assert_eq!(rows(&ab), rows(&ba));
    assert_eq!(
        rows(&ab),
        vec![
            row("d", &[0, 1, 0, 2]),
            row("s", &[1, 0, 2, 0]),
            row("w", &[0, 0, 0, 1])
        ]
    );
}

#[test]
fn merge_is_associative_on_values() {
    let a = tallied(0..2, &[(0, "s"), (1, "d")]);
    let b = tallied(0..2, &[(0, "s"), (0, "w")]);
    let c = tallied(0..2, &[(1, "w"), (1, "d"), (0, "q")]);
    let mut left = a.clone();
    assert_eq!(left.add_block_count(b.clone()), Ok(()));
    assert_eq!(left.add_block_count(c.clone()), Ok(()));
    let mut bc = b.clone();
    assert_eq!(bc.add_block_count(c.clone()), Ok(()));
    let mut right = a.clone();
    assert_eq!(right.add_block_count(bc), Ok(()));
    assert_eq!(rows(&left), rows(&right));
}

#[test]
fn merge_equals_single_accumulator_with_all_calls() {
    let first = [(0isize, "s"), (1, "d"), (1, "s"), (2, "s")];
    let second = [(2isize, "s"), (0, "w"), (1, "d"), (1, "d")];
    let mut merged = tallied(0..3, &first);
    assert_eq!(merged.add_block_count(tallied(0..3, &second)), Ok(()));

    let mut one_after_the_other: Vec<(isize, &str)> = first.to_vec();
    one_after_the_other.extend_from_slice(&second);
    assert_eq!(rows(&merged), rows(&tallied(0..3, &one_after_the_other)));

    let mut interleaved: Vec<(isize, &str)> = Vec::new();
    for i in 0..4 {
        interleaved.push(second[3 - i]);
        interleaved.push(first[i]);
    }
    assert_eq!(rows(&merged), rows(&tallied(0..3, &interleaved)));
    assert_eq!(
        rows(&merged),
        vec![
            row("d", &[0, 3, 0]),
            row("s", &[1, 1, 2]),
            row("w", &[1, 0, 0])
        ]
    );
}

#[test]
fn can_add_small_counts() {
    let a = tallied(0..2, &[(0, "s")]);
    let b = tallied(0..2, &[(0, "s"), (1, "d")]);
    assert!(a.can_add(&b));
    assert!(b.can_add(&a));
}

#[test]
fn can_add_is_true_for_mismatching_ranges() {
    let a = tallied(0..2, &[(0, "s")]);
    let b = tallied(1..3, &[(1, "s")]);
    assert!(a.can_add(&b));
}

#[test]
fn can_add_refuses_a_sum_beyond_the_machine() {
    let mut a = tallied(0..2, &[(1, "s"), (0, "d")]);
    let mut doublings = 0;
    while a.can_add(&a.clone()) {
        let copy = a.clone();
        assert_eq!(a.add_block_count(copy), Ok(()));
        doublings += 1;
        assert!(doublings < 200);
    }
    let top = a.block_count()[1].1[1];
    assert_eq!(a.block_count()[1].0, "s");
    assert_eq!(doublings, isize::BITS - 2);
    assert_eq!(top, isize::MAX / 2 + 1);
    assert_eq!(top.checked_add(top), None);
    // a row that is not shared does not stand in the way
    let other = tallied(0..2, &[(1, "w")]);
    assert!(a.can_add(&other));
    // one more fits exactly once
    let mut b = a.clone();
    let rest = BlockCount::new(&(0..2));
    assert!(b.can_add(&rest));
    assert_eq!(b.add_block_count(rest), Ok(()));
    assert_eq!(rows(&b), rows(&a));
}

#[test]
fn error_message_names_both_ranges() {
    let e = BlockCountError::MismatchingYRange {
        this: 0..256,
        other: -64..320,
    };
    assert_eq!(
        e.message(),
        "Y ranges don't match: expected 0..256, but got -64..320"
    );
    let this = -7..isize::MAX;
    let other = isize::MIN..0;
    let e = BlockCountError::MismatchingYRange {
        this: this.clone(),
        other: other.clone(),
    };
    assert_eq!(
        e.message(),
        format!(
            "Y ranges don't match: expected {}..{}, but got {}..{}",
            this.start, this.end, other.start, other.end
        )
    );
}

#[test]
fn reduce_merges_a_census() {
    let mut total = BlockCount::new(&(0..2));
    assert!(reduce(&mut total, Ok(tallied(0..2, &[(0, "s")]))).is_ok());
    assert!(reduce(&mut total, Ok(tallied(0..2, &[(0, "s"), (1, "d")]))).is_ok());
    assert_eq!(rows(&total), vec![row("d", &[0, 1]), row("s", &[2, 0])]);
}

#[test]
fn reduce_drops_a_failed_region() {
    let mut total = tallied(0..2, &[(0, "s")]);
    let failed = gather_region_stats(
        vec![1, 2, 3],
        0..2,
        false,
        |_: &fastanvil::JavaChunk, _, _, _| None,
    );
    assert!(matches!(failed, Err(RegionError::Container(_))));
    match reduce(&mut total, failed) {
        Err(Dropped::Region(RegionError::Container(_))) => {}
        other => panic!("expected a dropped region, got {:?}", other),
    }
    assert_eq!(rows(&total), vec![row("s", &[1, 0])]);
    assert_eq!(total.world_y_range(), 0..2);
}

#[test]
fn reduce_is_independent_of_arrival_order() {
    let parts = [
        tallied(0..3, &[(0, "s"), (1, "d")]),
        tallied(0..3, &[(2, "s"), (2, "s")]),
        tallied(0..3, &[(1, "w"), (1, "d"), (0, "s")]),
    ];
    let orders: [[usize; 3]; 6] = [
        [0, 1, 2],
        [0, 2, 1],
        [1, 0, 2],
        [1, 2, 0],
        [2, 0, 1],
        [2, 1, 0],
    ];
    let expected = vec![
        row("d", &[0, 2, 0]),
        row("s", &[2, 0, 2]),
        row("w", &[0, 1, 0]),
    ];
    for order in orders {
        let mut total = BlockCount::new(&(0..3));
        for i in order {
            assert!(reduce(&mut total, Ok(parts[i].clone())).is_ok());
        }
        assert_eq!(rows(&total), expected);
    }
}

#[test]
fn rank_names_follows_byte_order() {
    let names = [
        "", "a", "aa", "ab", "b", "B", "minecraft:air", "minecraft:cave_air", "minecraft:stone",
        "é", "z", "日本", "\u{10348}", "~", "a\u{0}", "stone", "Stone",
    ];
    for a in names {
        for b in names {
            let expected = match a.cmp(b) {
                Ordering::Less => Rank::Before,
                Ordering::Equal => Rank::Same,
                Ordering::Greater => Rank::After,
            };
            assert_eq!(rank_names(a, b), expected, "{:?} against {:?}", a, b);
            assert_eq!(same_name(a, b), a == b);
        }
    }
}

#[test]
fn rank_names_prefix_comes_first() {
    assert_eq!(rank_names("minecraft:stone", "minecraft:stone_bricks"), Rank::Before);
    assert_eq!(rank_names("minecraft:stone_bricks", "minecraft:stone"), Rank::After);
    assert_eq!(rank_names("minecraft:stone", "minecraft:stone"), Rank::Same);
}

#[test]
fn has_room_for_small_counts() {
    let acc = tallied(0..2, &[(0, "s"), (0, "s"), (1, "d")]);
    assert!(acc.has_room(0));
    assert!(acc.has_room(256));
    assert!(acc.has_room(isize::MAX - 2));
    assert!(!acc.has_room(isize::MAX - 1));
    assert!(!acc.has_room(isize::MAX));
    assert!(BlockCount::new(&(0..2)).has_room(isize::MAX));
}

#[test]
fn has_room_looks_at_every_count() {
    let mut a = tallied(0..3, &[(2, "z"), (0, "a")]);
    while a.can_add(&a.clone()) {
        let copy = a.clone();
        assert_eq!(a.add_block_count(copy), Ok(()));
    }
    let top = isize::MAX / 2 + 1;
    assert_eq!(a.block_count()[1].1, vec![0, 0, top]);
    assert!(a.has_room(isize::MAX - top));
    assert!(!a.has_room(isize::MAX - top + 1));
    assert!(!a.has_room(256 + isize::MAX / 2));
}
