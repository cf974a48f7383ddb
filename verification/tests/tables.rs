use twenty48::board::bitboard::Row;
use twenty48::board::tables::{pack, reverse_row, unpack, warm_tables};

#[test]
fn canonical_move_cases() {
    let tables = warm_tables();
    // exponents: 1=tile2, 2=tile4, 3=tile8
    // [1,1,1,1] left -> [2,2,0,0], score 8
    let row = pack([1, 1, 1, 1]);
    assert_eq!(unpack(tables.move_left[row as usize]), [2, 2, 0, 0]);
    assert_eq!(tables.score_left[row as usize], 8);

    // [1,1,2,2] left -> [2,3,0,0], score 12
    let row = pack([1, 1, 2, 2]);
    assert_eq!(unpack(tables.move_left[row as usize]), [2, 3, 0, 0]);
    assert_eq!(tables.score_left[row as usize], 12);

    // [2,1,1,2] left -> [2,2,2,0], score 4
    let row = pack([2, 1, 1, 2]);
    assert_eq!(unpack(tables.move_left[row as usize]), [2, 2, 2, 0]);
    assert_eq!(tables.score_left[row as usize], 4);

    // [1,0,1,2] left -> [2,2,0,0], score 4
    let row = pack([1, 0, 1, 2]);
    assert_eq!(unpack(tables.move_left[row as usize]), [2, 2, 0, 0]);
    assert_eq!(tables.score_left[row as usize], 4);

    // [0,0,0,1] left -> [1,0,0,0], score 0
    let row = pack([0, 0, 0, 1]);
    assert_eq!(unpack(tables.move_left[row as usize]), [1, 0, 0, 0]);
    assert_eq!(tables.score_left[row as usize], 0);

    // [1,1,1,0] left -> [2,1,0,0], score 4
    let row = pack([1, 1, 1, 0]);
    assert_eq!(unpack(tables.move_left[row as usize]), [2, 1, 0, 0]);
    assert_eq!(tables.score_left[row as usize], 4);

    // [0,1,0,1] right -> [0,0,0,2], score 4
    let row = pack([0, 1, 0, 1]);
    assert_eq!(unpack(tables.move_right[row as usize]), [0, 0, 0, 2]);
    assert_eq!(tables.score_right[row as usize], 4);
}

#[test]
fn reverse_row_involution() {
    for row in (0..65536u32).step_by(7) {
        assert_eq!(reverse_row(reverse_row(row as Row)), row as Row);
    }
}
