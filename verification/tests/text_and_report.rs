use block_census::block_count::BlockCount;
use block_census::report::render_csv;
use block_census::text::{decimal_string, push_decimal};

#[test]
fn decimal_string_matches_std() {
    let values = [
        0isize,
        1,
        7,
        9,
        10,
        11,
        99,
        100,
        101,
        256,
        320,
        1000,
        262144,
        -1,
        -9,
        -10,
        -64,
        -100,
        isize::MAX,
        isize::MIN,
        isize::MAX - 1,
        isize::MIN + 1,
    ];
    for v in values {
        assert_eq!(decimal_string(v), v.to_string());
    }
}

#[test]
fn decimal_string_exact_values() {
    assert_eq!(decimal_string(0), "0");
    assert_eq!(decimal_string(-64), "-64");
    assert_eq!(decimal_string(1203), "1203");
}

#[test]
fn push_decimal_appends() {
    let mut s = String::from("y_");
    push_decimal(&mut s, -3);
    push_decimal(&mut s, 40);
    assert_eq!(s, "y_-340");
}

#[test]
fn render_csv_empty_census() {
    let acc = BlockCount::new(&(-1..2));
    assert_eq!(render_csv(&acc), "block_type,y_-1,y_0,y_1\n");
}

#[test]
fn render_csv_no_levels() {
    let acc = BlockCount::new(&(3..3));
    assert_eq!(render_csv(&acc), "block_type\n");
}

#[test]
fn render_csv_rows_in_name_order() {
    let mut acc = BlockCount::new(&(0..3));
    acc.count_block(0, "minecraft:stone");
    acc.count_block(0, "minecraft:stone");
    acc.count_block(2, "minecraft:dirt");
    for _ in 0..12 {
        acc.count_block(1, "minecraft:stone");
    }
    assert_eq!(
        render_csv(&acc),
        "block_type,y_0,y_1,y_2\n\"minecraft:dirt\",0,0,1\n\"minecraft:stone\",2,12,0\n"
    );
}
