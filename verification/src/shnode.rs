use vstd::prelude::*;

verus! {

/// How early a cell is tried when moves are ordered, row by row from the
/// top left: corners last, the cells around the centre first.
pub open spec fn sort_pri(i: int) -> int {
    seq![
        0, 3, 1, 2, 2, 1, 3, 0,
        3, 3, 4, 4, 4, 4, 3, 3,
        1, 4, 5, 5, 5, 5, 4, 1,
        2, 4, 5, 5, 5, 5, 4, 2,
        2, 4, 5, 5, 5, 5, 4, 2,
        1, 4, 5, 5, 5, 5, 4, 1,
        3, 3, 4, 4, 4, 4, 3, 3,
        0, 3, 1, 2, 2, 1, 3, 0int,
    ][i]
}

/// The table index of the 1-based cell `(x, y)`; a pass (a zero) is 0.
pub open spec fn pri_index(x: u8, y: u8) -> int {
    if x == 0 || y == 0 {
        0
    } else {
        x + y * 8 - 9
    }
}

/// `(x, y)` is a pass or a cell whose index falls in the table.
pub open spec fn pri_ok(x: u8, y: u8) -> bool {
    x == 0 || y == 0 || (x + y * 8 <= 255 && 0 <= x + y * 8 - 9 < 64)
}

/// The ordering key of a pair of moves: ten times the priority of the
/// first plus the priority of the second.
pub fn move_priority2(m: &(u8, u8, u8, u8)) -> (r: i32)
    requires
        pri_ok(m.0, m.1),
        pri_ok(m.2, m.3),
    ensures
        r == sort_pri(pri_index(m.0, m.1)) * 10 + sort_pri(pri_index(m.2, m.3)),
{
    let tbl: [i32; 64] = [
        0, 3, 1, 2, 2, 1, 3, 0,
        3, 3, 4, 4, 4, 4, 3, 3,
        1, 4, 5, 5, 5, 5, 4, 1,
        2, 4, 5, 5, 5, 5, 4, 2,
        2, 4, 5, 5, 5, 5, 4, 2,
        1, 4, 5, 5, 5, 5, 4, 1,
        3, 3, 4, 4, 4, 4, 3, 3,
        0, 3, 1, 2, 2, 1, 3, 0,
    ];
    let (x1, y1, x2, y2) = *m;
    let idx1: u8 = if x1 == 0 || y1 == 0 { 0 } else { x1 + y1 * 8 - 9 };
    let idx2: u8 = if x2 == 0 || y2 == 0 { 0 } else { x2 + y2 * 8 - 9 };
    assert(tbl@ =~= seq![
        0i32, 3, 1, 2, 2, 1, 3, 0,
        3, 3, 4, 4, 4, 4, 3, 3,
        1, 4, 5, 5, 5, 5, 4, 1,
        2, 4, 5, 5, 5, 5, 4, 2,
        2, 4, 5, 5, 5, 5, 4, 2,
        1, 4, 5, 5, 5, 5, 4, 1,
        3, 3, 4, 4, 4, 4, 3, 3,
        0, 3, 1, 2, 2, 1, 3, 0,
    ]);
    tbl[idx1 as usize] * 10 + tbl[idx2 as usize]
}

} // verus!
