use vstd::prelude::*;

verus! {

/// Cell text for a 20 by 20 field with one broad peak.
pub const GRID_S: &'static str = "0 0 0 0 0 0 1 1 2 0 0 0 0 0 0 0 0 0 0 0
0 0 0 0 1 0 1 0 0 2 2 0 1 0 0 0 0 0 0 0
0 2 0 0 1 0 3 1 2 1 2 1 2 1 0 1 0 0 0 0
1 0 1 2 1 1 2 3 4 4 3 3 3 2 1 1 1 0 0 0
1 0 2 3 3 5 4 3 3 5 4 4 3 3 3 0 0 1 0 0
1 2 4 4 3 4 6 7 5 5 6 6 4 4 3 1 2 1 1 0
1 4 3 5 6 7 8 10 10 10 7 7 7 6 4 3 3 1 2 0
2 4 5 6 7 9 11 11 12 10 12 9 8 6 4 3 3 2 1 1
2 5 7 9 11 13 12 15 16 13 13 11 10 9 6 3 3 1 0 0
4 4 7 8 11 14 17 17 18 17 16 15 11 8 8 6 5 3 1 0
4 5 8 11 14 16 17 19 20 19 17 16 12 11 8 6 4 3 2 1
4 6 10 11 14 18 19 20 20 21 20 17 14 11 10 6 4 2 2 0
4 7 9 12 15 19 19 22 22 20 19 19 15 13 9 7 4 2 3 2
5 5 9 11 14 16 19 22 21 22 19 17 14 10 8 5 4 4 2 1
3 6 8 11 13 16 18 20 20 18 18 17 14 11 8 5 5 3 1 1
4 5 8 8 11 14 17 16 17 17 16 14 11 8 8 4 3 3 1 1
3 5 7 8 10 12 14 14 16 13 14 13 10 7 6 5 2 2 1 0
2 3 5 6 8 10 11 10 13 12 11 9 8 7 6 3 3 2 1 1
1 3 3 5 7 8 7 10 9 9 7 6 6 4 3 3 2 0 1 0
1 2 4 3 5 5 7 6 5 6 5 5 5 2 3 1 0 1 0 0";

/// Cell text for a 30 by 30 field with one broad peak.
pub const GRID_M: &'static str = "0 0 0 0 2 2 2 1 2 4 3 3 6 6 7 6 7 10 10 10 9 9 8 8 8 7 6 7 5 5
0 0 0 0 1 1 1 3 1 2 5 5 7 6 8 9 10 11 10 11 11 13 10 11 11 8 7 6 6 5
0 0 0 0 2 2 3 3 2 4 5 6 6 8 9 10 13 12 13 14 13 13 12 14 13 11 9 9 7 6
0 0 0 2 2 0 3 3 3 3 5 7 7 9 11 13 12 14 15 16 17 16 14 15 13 13 10 8 7 7
0 0 0 1 0 1 2 4 4 6 6 8 9 11 12 14 15 16 17 18 19 19 16 17 14 13 11 10 9 7
0 0 2 1 2 3 2 3 3 5 7 9 9 12 13 15 16 17 19 21 21 20 18 17 17 15 13 12 9 8
0 0 1 2 1 2 1 2 5 6 7 8 10 12 16 15 18 20 21 20 21 22 21 19 18 16 15 12 12 8
0 0 2 0 2 1 4 5 4 5 7 8 10 13 16 17 20 22 23 24 22 22 22 20 20 16 15 12 12 10
0 0 1 0 1 2 3 4 5 6 9 11 12 14 17 18 20 22 23 23 25 23 23 21 20 18 17 14 11 9
0 0 1 1 0 3 4 4 5 7 9 11 12 15 16 17 19 22 22 24 24 24 22 22 21 19 16 13 12 10
0 0 1 0 0 3 2 4 4 6 8 11 12 14 15 19 19 21 23 23 24 23 24 21 19 19 17 14 13 11
0 0 1 0 2 2 4 4 5 5 7 9 11 14 14 17 19 21 21 23 22 22 23 21 20 17 16 12 11 8
0 0 2 0 1 2 2 4 4 7 8 8 11 14 15 16 18 20 22 21 22 21 21 21 18 17 14 12 12 8
0 0 0 2 0 3 1 3 3 6 8 9 10 12 14 16 17 18 20 21 20 19 19 19 16 15 13 11 9 8
0 0 0 1 1 0 2 3 4 5 7 6 10 10 12 14 16 15 18 19 18 18 17 16 15 14 12 11 9 7
0 0 0 1 1 1 1 2 3 4 4 7 9 8 12 13 13 15 16 15 15 16 15 15 12 12 11 8 9 6
0 0 0 0 0 2 2 2 3 3 5 6 7 8 8 10 12 14 12 13 14 15 14 14 12 12 9 8 6 5
0 0 0 0 1 1 2 3 2 3 5 5 6 6 7 9 9 12 11 12 12 12 10 11 11 9 8 7 7 5
0 0 0 0 2 1 1 0 2 3 4 3 4 6 6 7 8 9 9 10 11 10 8 10 9 7 6 7 4 3
0 0 0 0 0 0 1 1 3 3 2 3 5 4 4 6 7 7 8 9 7 9 7 6 8 6 6 6 4 4
0 0 0 0 0 0 2 2 2 2 3 3 3 4 5 5 5 6 5 5 6 5 6 7 6 4 4 5 2 3
0 0 0 0 0 0 0 1 2 2 2 2 1 2 4 4 4 3 4 6 6 4 5 3 4 4 2 3 3 2
0 0 0 0 0 0 0 2 2 1 2 1 2 2 2 3 4 2 4 4 4 4 4 3 3 3 2 2 1 0
0 0 0 0 0 0 0 0 0 1 1 2 0 1 1 2 2 1 2 3 3 3 4 3 2 2 2 2 2 1
0 0 0 0 0 0 0 0 0 0 0 2 1 2 2 1 3 2 2 2 2 2 2 3 2 0 2 1 0 0
0 0 0 0 0 0 0 0 0 0 0 2 2 2 1 0 0 1 1 0 1 2 1 1 1 1 1 1 1 0
0 0 0 0 0 0 0 0 0 0 0 0 0 1 2 1 2 1 2 1 1 2 1 0 1 1 0 1 0 0
0 0 0 0 0 0 0 0 0 0 0 0 0 0 0 0 2 2 1 1 2 1 1 1 0 0 0 0 0 0
0 0 0 0 0 0 0 0 0 0 0 0 0 0 0 0 0 0 0 0 0 0 0 0 0 0 0 0 0 0
0 0 0 0 0 0 0 0 0 0 0 0 0 0 0 0 0 0 0 0 0 0 0 0 0 0 0 0 0 0";

/// Cell text for a 50 by 50 field with one broad peak.
pub const GRID_L: &'static str = "0 0 0 0 0 0 1 1 1 1 1 1 1 1 0 2 2 1 3 2 1 2 2 1 2 3 3 2 2 2 2 3 3 2 3 2 0 1 1 2 1 2 2 1 1 0 0 0 0 0
0 0 0 0 1 1 1 1 1 2 1 1 2 2 3 2 2 2 2 2 1 4 4 4 2 4 2 3 3 4 3 2 2 3 2 2 2 2 1 1 2 1 0 0 1 1 1 0 0 0
0 0 0 1 1 1 0 1 1 0 2 1 3 2 1 1 2 3 2 4 3 3 2 4 3 2 2 3 3 3 4 4 3 3 2 1 3 2 2 2 2 1 1 2 1 1 1 1 0 0
0 0 2 1 1 2 0 1 2 2 1 1 1 1 2 3 4 4 4 3 3 4 5 4 4 3 3 4 4 4 4 3 4 3 2 3 2 1 2 3 3 2 0 1 1 1 0 1 1 0
0 1 0 1 1 0 2 1 1 2 2 2 1 3 3 4 3 5 3 3 3 4 4 6 5 5 5 5 3 4 3 3 4 3 2 3 2 3 3 2 2 1 1 0 1 2 2 2 2 1
0 1 1 2 1 0 0 2 2 2 2 3 3 4 3 5 5 4 4 6 6 5 6 6 5 4 4 6 5 5 4 4 4 4 3 5 2 3 4 2 1 2 2 2 0 2 1 1 2 0
0 1 1 0 2 1 2 1 3 2 2 2 3 4 5 4 5 5 5 5 5 6 6 6 6 5 5 6 5 7 6 6 6 6 4 5 4 4 4 2 3 2 3 1 3 2 1 0 2 2
2 2 0 0 1 2 1 2 2 3 3 4 4 3 5 4 4 6 5 7 7 7 7 6 7 7 6 6 7 8 7 7 5 7 5 4 4 4 3 3 2 4 2 3 2 2 1 1 2 1
1 1 0 0 2 1 1 2 3 3 3 3 3 6 6 5 5 7 7 8 7 9 8 8 7 7 9 7 7 8 8 6 8 6 5 6 5 5 4 5 4 2 3 2 2 2 2 0 1 1
1 2 0 2 1 3 3 3 3 4 3 5 6 5 7 7 7 6 8 9 8 8 10 10 8 10 9 8 9 8 8 9 7 8 7 7 5 5 5 5 5 3 4 3 3 3 1 2 2 1
1 2 1 1 1 1 4 4 4 4 5 4 6 7 8 6 7 7 10 9 10 9 9 11 10 12 11 9 11 9 10 9 10 8 8 7 6 6 4 5 4 5 3 4 2 2 1 3 0 0
0 2 2 2 1 2 4 3 5 4 5 7 6 7 7 7 10 9 11 11 11 11 11 13 11 11 13 13 11 11 11 9 11 9 9 7 7 8 6 6 6 3 5 3 2 3 1 2 3 0
0 0 1 2 1 3 4 5 3 6 4 6 7 7 9 10 9 10 11 11 11 12 12 14 13 14 13 14 13 13 12 10 12 10 9 8 8 9 7 7 4 4 5 3 4 3 2 1 2 0
1 3 1 2 3 2 4 5 4 6 6 8 7 8 9 10 11 12 12 13 14 14 13 13 14 14 13 14 14 14 13 14 12 10 10 10 9 7 8 7 5 6 6 5 4 3 3 1 3 2
1 3 1 3 3 2 3 5 4 6 7 7 7 9 11 11 11 12 12 13 14 16 16 16 17 17 15 15 16 15 14 14 14 13 10 11 9 9 7 7 7 7 6 6 4 2 3 3 1 2
1 3 3 4 3 5 3 5 7 7 6 8 9 10 12 12 12 13 14 15 15 16 15 17 16 17 17 17 16 16 14 16 13 13 13 13 12 10 10 7 6 6 6 5 3 3 2 2 3 2
2 2 3 3 3 3 6 4 5 8 9 8 11 11 10 12 13 14 14 17 16 18 17 18 19 18 18 19 18 17 18 17 15 14 14 12 11 10 9 10 8 8 6 5 6 4 4 2 3 3
1 2 3 3 3 5 4 5 6 7 8 8 11 10 12 14 15 15 15 16 17 18 18 19 19 20 18 20 20 17 18 18 16 14 13 14 12 12 10 9 8 6 5 6 4 3 4 3 3 2
3 2 3 3 4 4 5 6 6 9 9 9 11 12 14 15 15 15 16 17 18 19 21 19 22 21 21 21 19 19 19 18 17 16 16 14 13 13 12 11 9 8 6 6 6 4 5 3 3 1
2 2 3 2 5 5 5 5 7 7 10 10 12 13 14 14 15 18 18 19 20 19 20 20 23 22 22 22 21 21 20 19 17 16 17 15 15 13 12 10 9 8 8 5 6 5 3 3 3 3
3 2 3 4 4 5 6 7 7 9 10 11 12 14 13 16 18 18 20 19 22 20 21 21 24 22 23 21 21 22 20 21 20 18 16 14 14 13 13 10 10 8 6 7 6 5 5 4 3 2
2 3 4 4 4 5 7 6 8 8 10 10 12 14 15 15 16 18 19 19 20 22 22 22 23 24 22 24 23 22 20 19 20 18 17 16 16 14 11 11 10 9 9 6 5 5 5 3 2 2
2 3 3 5 5 5 6 7 8 9 9 12 12 15 14 16 17 20 21 21 21 23 23 23 25 25 25 24 23 23 21 21 21 19 18 16 15 13 13 11 10 9 7 6 6 5 3 5 3 3
2 4 4 5 5 5 5 7 7 9 9 12 14 13 16 17 18 20 20 21 22 23 23 25 24 25 25 25 24 23 22 20 20 19 17 17 15 15 13 13 11 9 9 7 6 5 5 4 2 2
2 3 3 4 5 5 7 8 8 8 10 11 14 14 17 17 18 19 22 22 24 22 25 25 25 25 25 24 23 23 22 22 21 19 18 17 15 13 13 11 11 10 8 7 7 4 5 5 4 3
3 3 2 4 4 5 7 8 9 9 11 12 14 14 15 16 18 19 21 21 22 24 24 24 25 25 25 25 25 24 23 23 20 21 17 16 15 13 13 13 10 8 8 8 7 4 5 5 3 4
3 3 2 4 5 5 6 7 9 10 9 12 13 14 16 17 19 18 22 22 23 23 25 25 25 25 24 25 23 24 23 22 22 20 19 17 15 14 12 11 11 9 9 7 7 4 5 4 2 4
2 3 3 4 4 5 6 6 8 10 11 13 13 14 15 16 18 18 20 20 22 23 24 23 25 25 25 24 25 23 22 21 20 19 18 18 15 13 13 13 10 9 7 8 7 5 5 4 2 3
2 4 3 4 4 5 6 7 8 9 10 11 12 13 15 16 17 19 20 20 22 22 22 24 24 23 23 24 23 23 23 21 19 20 18 15 16 15 13 11 11 9 7 6 6 6 4 4 3 4
2 4 2 3 4 4 7 7 7 9 9 11 12 14 16 17 18 18 19 19 20 23 22 22 24 25 24 22 23 22 20 20 19 18 17 16 15 14 13 12 10 8 9 7 7 5 5 4 2 3
3 2 3 3 4 5 6 7 7 8 9 12 12 13 15 16 16 18 20 21 21 21 23 22 22 23 24 22 21 21 22 20 18 18 17 15 15 14 12 10 10 9 7 6 6 4 5 4 3 2
2 1 4 3 5 4 6 7 7 7 9 10 10 13 14 14 16 18 18 18 20 20 20 21 22 22 22 22 21 21 20 19 17 16 17 15 14 13 12 10 10 9 7 5 5 4 4 4 3 1
1 2 3 2 5 4 4 6 7 7 9 10 11 13 13 13 15 15 17 17 19 19 19 21 20 21 22 21 20 19 19 18 17 17 16 15 13 12 11 10 9 8 8 5 6 4 4 3 2 2
3 2 4 4 3 4 6 7 6 6 8 9 10 11 12 13 14 14 16 18 18 17 19 20 19 20 19 19 20 17 18 17 15 16 15 12 12 11 10 9 8 7 7 5 4 4 3 3 3 2
2 3 2 3 3 5 5 4 5 7 8 9 10 11 12 13 13 13 15 16 17 18 18 18 18 19 17 17 19 16 17 17 16 14 14 13 12 12 10 10 7 6 7 5 6 4 4 3 2 2
2 1 1 3 2 4 5 6 7 5 7 8 10 10 12 13 13 13 13 16 15 16 15 17 16 18 17 16 15 17 16 16 15 13 12 13 12 10 9 7 8 6 6 5 4 4 2 3 2 3
1 2 2 2 2 3 4 4 4 6 8 7 8 10 9 11 11 12 12 15 15 15 14 16 15 15 15 15 15 15 15 14 13 12 12 10 11 9 8 7 6 6 5 5 4 3 3 2 3 2
1 3 2 3 3 3 3 3 4 5 6 7 9 8 10 9 11 12 13 13 13 13 13 13 14 15 14 15 14 14 12 14 12 11 11 11 9 8 8 8 6 4 4 4 3 2 4 3 3 2
1 2 1 2 1 4 2 3 5 5 6 7 7 8 8 9 10 11 11 11 12 13 13 13 12 12 12 14 12 13 12 11 12 9 10 10 8 8 6 6 6 5 4 3 3 4 2 3 3 1
2 1 3 2 3 4 3 3 3 4 6 6 7 8 6 8 9 10 10 9 10 11 11 11 12 13 12 12 12 10 11 10 10 9 10 7 7 7 7 7 4 3 4 3 4 3 1 1 1 0
0 0 0 3 2 1 3 3 4 5 5 6 5 6 6 8 8 7 10 8 9 10 10 10 10 12 10 9 10 9 9 9 9 8 8 6 7 6 4 5 4 4 2 2 3 3 2 2 1 0
1 0 1 0 2 3 2 3 3 3 4 4 4 4 6 7 7 7 9 7 9 9 9 8 8 8 9 10 8 8 9 7 8 6 6 6 6 6 5 5 4 3 3 2 1 2 2 1 1 2
2 2 1 0 2 1 3 1 3 2 3 4 3 5 5 7 6 6 7 6 7 8 8 9 9 9 9 7 9 7 7 7 6 5 6 5 5 5 4 5 4 3 4 1 1 2 3 2 2 2
1 0 0 2 1 2 3 3 2 2 3 3 5 4 4 6 6 7 5 6 7 7 7 7 6 6 8 7 7 8 7 5 6 6 5 5 5 4 5 3 3 2 3 2 1 3 1 0 2 2
1 1 1 0 1 2 1 2 2 2 2 4 3 4 5 3 5 5 5 5 7 6 5 6 6 6 7 5 6 6 6 4 5 5 5 4 4 4 3 3 3 2 1 3 1 1 2 1 1 0
0 0 1 1 2 0 2 2 2 1 1 3 4 3 4 3 5 3 5 4 5 5 5 4 5 6 6 4 6 5 4 5 4 5 4 4 2 2 3 4 1 1 3 2 2 1 1 1 1 0
0 1 1 1 0 1 0 0 1 2 2 3 1 4 2 4 3 3 4 4 5 5 5 5 5 5 6 5 3 4 5 4 3 3 4 4 2 4 3 1 1 3 2 2 0 0 2 2 1 1
0 0 1 1 2 1 1 2 0 2 2 1 2 3 3 2 3 3 4 3 4 3 3 4 5 5 3 5 4 5 4 4 4 2 3 4 3 2 2 2 3 1 1 1 0 1 0 1 1 0
0 0 0 1 1 1 2 0 2 1 0 3 3 2 1 2 2 3 3 2 4 4 2 2 3 2 3 2 3 4 3 4 3 3 2 2 2 1 1 2 2 1 1 1 0 1 2 1 0 0
0 0 0 0 0 0 1 2 1 1 1 2 1 3 1 2 2 1 1 1 3 2 2 4 4 3 4 4 3 4 1 2 1 2 1 3 2 2 2 1 1 2 0 0 2 1 0 0 0 0";

/// Cell text for a single cell.
pub const GRID_TEST_SINGLE: &'static str = "5";

/// Cell text for a 5 by 5 field with one bright middle row.
pub const GRID_TEST_LINE: &'static str = "0 0 0 0 0
0 0 0 0 0
9 9 9 9 9
0 0 0 0 0
0 0 0 0 0";

/// Cell text for a 5 by 5 field brightening left to right.
pub const GRID_TEST_HORIZONTAL: &'static str = "0 2 4 6 8
0 2 4 6 8
0 2 4 6 8
0 2 4 6 8
0 2 4 6 8";

/// Cell text for a 5 by 5 field brightening top to bottom.
pub const GRID_TEST_VERTICAL: &'static str = "0 0 0 0 0
2 2 2 2 2
4 4 4 4 4
6 6 6 6 6
8 8 8 8 8";

/// Cell text for a 5 by 5 field with a bright main diagonal.
pub const GRID_TEST_DIAGONAL: &'static str = "9 0 0 0 0
0 9 0 0 0
0 0 9 0 0
0 0 0 9 0
0 0 0 0 9";

} // verus!
