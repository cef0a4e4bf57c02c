//! Which lines and which quarters each character has.

use vstd::array::*;
use vstd::prelude::*;

verus! {

/// The lines of the characters from U+2500 to U+257F: up, down, left and right, where 0 is no
/// line, 1 a light one and 2 a heavy one. A row of zeroes is left to the font.
pub const BOX_WEIGHTS: [[u8; 4]; 128] = [
    [0, 0, 1, 1],  // light horizontal
    [0, 0, 2, 2],  // heavy horizontal
    [1, 1, 0, 0],  // light vertical
    [2, 2, 0, 0],  // heavy vertical
    [0, 0, 0, 0],  // light triple dash horizontal
    [0, 0, 0, 0],  // heavy triple dash horizontal
    [0, 0, 0, 0],  // light triple dash vertical
    [0, 0, 0, 0],  // heavy triple dash vertical
    [0, 0, 0, 0],  // light quadruple dash horizontal
    [0, 0, 0, 0],  // heavy quadruple dash horizontal
    [0, 0, 0, 0],  // light quadruple dash vertical
    [0, 0, 0, 0],  // heavy quadruple dash vertical
    [0, 1, 0, 1],  // light down and right
    [0, 1, 0, 2],  // down light and right heavy
    [0, 2, 0, 1],  // down heavy and right light
    [0, 2, 0, 2],  // heavy down and right
    [0, 1, 1, 0],  // light down and left
    [0, 1, 2, 0],  // down light and left heavy
    [0, 2, 1, 0],  // down heavy and left light
    [0, 2, 2, 0],  // heavy down and left
    [1, 0, 0, 1],  // light up and right
    [1, 0, 0, 2],  // up light and right heavy
    [2, 0, 0, 1],  // up heavy and right light
    [2, 0, 0, 2],  // heavy up and right
    [1, 0, 1, 0],  // light up and left
    [1, 0, 2, 0],  // up light and left heavy
    [2, 0, 1, 0],  // up heavy and left light
    [2, 0, 2, 0],  // heavy up and left
    [1, 1, 0, 1],  // light vertical and right
    [1, 1, 0, 2],  // vertical light and right heavy
    [2, 1, 0, 1],  // up heavy and right down light
    [1, 2, 0, 1],  // down heavy and right up light
    [2, 2, 0, 1],  // vertical heavy and right light
    [2, 1, 0, 2],  // down light and right up heavy
    [1, 2, 0, 2],  // up light and right down heavy
    [2, 2, 0, 2],  // heavy vertical and right
    [1, 1, 1, 0],  // light vertical and left
    [1, 1, 2, 0],  // vertical light and left heavy
    [2, 1, 1, 0],  // up heavy and left down light
    [1, 2, 1, 0],  // down heavy and left up light
    [2, 2, 1, 0],  // vertical heavy and left light
    [2, 1, 2, 0],  // down light and left up heavy
    [1, 2, 2, 0],  // up light and left down heavy
    [2, 2, 2, 0],  // heavy vertical and left
    [0, 1, 1, 1],  // light down and horizontal
    [0, 1, 2, 1],  // left heavy and right down light
    [0, 1, 1, 2],  // right heavy and left down light
    [0, 1, 2, 2],  // down light and horizontal heavy
    [0, 2, 1, 1],  // down heavy and horizontal light
    [0, 2, 2, 1],  // right light and left down heavy
    [0, 2, 1, 2],  // left light and right down heavy
    [0, 2, 2, 2],  // heavy down and horizontal
    [1, 0, 1, 1],  // light up and horizontal
    [1, 0, 2, 1],  // left heavy and right up light
    [1, 0, 1, 2],  // right heavy and left up light
    [1, 0, 2, 2],  // up light and horizontal heavy
    [2, 0, 1, 1],  // up heavy and horizontal light
    [2, 0, 2, 1],  // right light and left up heavy
    [2, 0, 1, 2],  // left light and right up heavy
    [2, 0, 2, 2],  // heavy up and horizontal
    [1, 1, 1, 1],  // light vertical and horizontal
    [1, 1, 2, 1],  // left heavy and right vertical light
    [1, 1, 1, 2],  // right heavy and left vertical light
    [1, 1, 2, 2],  // vertical light and horizontal heavy
    [2, 1, 1, 1],  // up heavy and down horizontal light
    [1, 2, 1, 1],  // down heavy and up horizontal light
    [2, 2, 1, 1],  // vertical heavy and horizontal light
    [2, 1, 2, 1],  // left up heavy and right down light
    [2, 1, 1, 2],  // right up heavy and left down light
    [1, 2, 2, 1],  // left down heavy and right up light
    [1, 2, 1, 2],  // right down heavy and left up light
    [2, 1, 2, 2],  // down light and up horizontal heavy
    [1, 2, 2, 2],  // up light and down horizontal heavy
    [2, 2, 2, 1],  // right light and left vertical heavy
    [2, 2, 1, 2],  // left light and right vertical heavy
    [2, 2, 2, 2],  // heavy vertical and horizontal
    [0, 0, 0, 0],  // light double dash horizontal
    [0, 0, 0, 0],  // heavy double dash horizontal
    [0, 0, 0, 0],  // light double dash vertical
    [0, 0, 0, 0],  // heavy double dash vertical
    [0, 0, 0, 0],  // double horizontal
    [0, 0, 0, 0],  // double vertical
    [0, 0, 0, 0],  // down single and right double
    [0, 0, 0, 0],  // down double and right single
    [0, 0, 0, 0],  // double down and right
    [0, 0, 0, 0],  // down single and left double
    [0, 0, 0, 0],  // down double and left single
    [0, 0, 0, 0],  // double down and left
    [0, 0, 0, 0],  // up single and right double
    [0, 0, 0, 0],  // up double and right single
    [0, 0, 0, 0],  // double up and right
    [0, 0, 0, 0],  // up single and left double
    [0, 0, 0, 0],  // up double and left single
    [0, 0, 0, 0],  // double up and left
    [0, 0, 0, 0],  // vertical single and right double
    [0, 0, 0, 0],  // vertical double and right single
    [0, 0, 0, 0],  // double vertical and right
    [0, 0, 0, 0],  // vertical single and left double
    [0, 0, 0, 0],  // vertical double and left single
    [0, 0, 0, 0],  // double vertical and left
    [0, 0, 0, 0],  // down single and horizontal double
    [0, 0, 0, 0],  // down double and horizontal single
    [0, 0, 0, 0],  // double down and horizontal
    [0, 0, 0, 0],  // up single and horizontal double
    [0, 0, 0, 0],  // up double and horizontal single
    [0, 0, 0, 0],  // double up and horizontal
    [0, 0, 0, 0],  // vertical single and horizontal double
    [0, 0, 0, 0],  // vertical double and horizontal single
    [0, 0, 0, 0],  // double vertical and horizontal
    [0, 0, 0, 0],  // light arc down and right
    [0, 0, 0, 0],  // light arc down and left
    [0, 0, 0, 0],  // light arc up and left
    [0, 0, 0, 0],  // light arc up and right
    [0, 0, 0, 0],  // light diagonal upper right to lower left
    [0, 0, 0, 0],  // light diagonal upper left to lower right
    [0, 0, 0, 0],  // light diagonal cross
    [0, 0, 1, 0],  // light left
    [1, 0, 0, 0],  // light up
    [0, 0, 0, 1],  // light right
    [0, 1, 0, 0],  // light down
    [0, 0, 2, 0],  // heavy left
    [2, 0, 0, 0],  // heavy up
    [0, 0, 0, 2],  // heavy right
    [0, 2, 0, 0],  // heavy down
    [0, 0, 1, 2],  // light left and heavy right
    [1, 2, 0, 0],  // light up and heavy down
    [0, 0, 2, 1],  // heavy left and light right
    [2, 1, 0, 0],  // heavy up and light down
];

/// Which quarters the characters from U+2596 to U+259F fill: upper left, upper right, lower left
/// and lower right.
pub const QUADRANTS: [[bool; 4]; 10] = [
    [false, false, true, false],
    [false, false, false, true],
    [true, false, false, false],
    [true, false, true, true],
    [true, false, false, true],
    [true, true, true, false],
    [true, true, false, true],
    [false, true, false, false],
    [false, true, true, false],
    [false, true, true, true],
];

/// The lines of a character, by its code.
#[verifier::opaque]
pub open spec fn weights(code: int) -> [u8; 4] {
    BOX_WEIGHTS@[code - 0x2500]
}

/// The quarters that a character fills, by its code.
#[verifier::opaque]
pub open spec fn quarters(code: int) -> [bool; 4] {
    QUADRANTS@[code - 0x2596]
}

pub fn box_weights(code: u32) -> (arms: [u8; 4])
    requires
        0x2500 <= code <= 0x257f,
    ensures
        arms == weights(code as int),
{
    reveal(weights);
    BOX_WEIGHTS[(code - 0x2500) as usize]
}

pub fn quadrants_of(code: u32) -> (filled: [bool; 4])
    requires
        0x2596 <= code <= 0x259f,
    ensures
        filled == quarters(code as int),
{
    reveal(quarters);
    QUADRANTS[(code - 0x2596) as usize]
}

/// The table knows no line but a light and a heavy one.
pub proof fn law_weights_are_known(i: int, j: int)
    requires
        0 <= i < 128,
        0 <= j < 4,
    ensures
        weights(0x2500 + i)@[j] <= 2,
{
    reveal(weights);
}

/// The weights of lines up, down, left and right.
pub ghost struct Weights {
    pub up: int,
    pub down: int,
    pub left: int,
    pub right: int,
}

/// A line of weight 2 where it is heavy, and of weight 1 where it is light.
pub open spec fn weight(heavy: bool) -> int {
    if heavy {
        2
    } else {
        1
    }
}

/// Lines in the directions that are given, each heavy or light.
pub open spec fn only(up: bool, down: bool, left: bool, right: bool, w: Weights) -> Weights {
    Weights {
        up: if up {
            w.up
        } else {
            0
        },
        down: if down {
            w.down
        } else {
            0
        },
        left: if left {
            w.left
        } else {
            0
        },
        right: if right {
            w.right
        } else {
            0
        },
    }
}

/// Lines in all directions; those that are given are heavy.
pub open spec fn heavy(up: bool, down: bool, left: bool, right: bool) -> Weights {
    Weights { up: weight(up), down: weight(down), left: weight(left), right: weight(right) }
}

/// What the names of the characters say of their lines. The corners come in four kinds, down and
/// right, down and left, up and right, up and left, and each kind in four weights; the tees come in
/// eight weights for each side, the cross in sixteen, and then there are the straight lines and the
/// halves. All the others have no such lines.
pub open spec fn named_lines(code: int) -> Weights {
    if 0x2500 <= code <= 0x2501 {
        let h = code == 0x2501;
        only(false, false, true, true, heavy(h, h, h, h))
    } else if 0x2502 <= code <= 0x2503 {
        let h = code == 0x2503;
        only(true, true, false, false, heavy(h, h, h, h))
    } else if 0x250c <= code <= 0x251b {
        let kind = (code - 0x250c) / 4;
        let vertical = (code - 0x250c) % 4 >= 2;
        let horizontal = code % 2 == 1;
        only(
            kind >= 2,
            kind < 2,
            kind % 2 == 1,
            kind % 2 == 0,
            heavy(vertical, vertical, horizontal, horizontal),
        )
    } else if 0x251c <= code <= 0x252b {
        let n = (code - 0x251c) % 8;
        let horizontal = n == 1 || n >= 5;
        only(
            true,
            true,
            code >= 0x2524,
            code < 0x2524,
            heavy(
                n == 2 || n == 4 || n == 5 || n == 7,
                n == 3 || n == 4 || n == 6 || n == 7,
                horizontal,
                horizontal,
            ),
        )
    } else if 0x252c <= code <= 0x253b {
        let n = (code - 0x252c) % 8;
        only(
            code >= 0x2534,
            code < 0x2534,
            true,
            true,
            heavy(n >= 4, n >= 4, n % 2 == 1, n / 2 % 2 == 1),
        )
    } else if 0x253c <= code <= 0x254b {
        let n = code - 0x253c;
        heavy(
            n == 4 || n == 6 || n == 7 || n == 8 || n == 11 || n >= 13,
            n == 5 || n == 6 || n == 9 || n == 10 || n >= 12,
            n == 1 || n == 3 || n == 7 || n == 9 || 11 <= n <= 13 || n == 15,
            n == 2 || n == 3 || n == 8 || n == 10 || n == 11 || n == 12 || n >= 14,
        )
    } else if 0x2574 <= code <= 0x257b {
        let h = code >= 0x2578;
        let way = code % 4;
        only(way == 1, way == 3, way == 0, way == 2, heavy(h, h, h, h))
    } else if code == 0x257c || code == 0x257e {
        only(false, false, true, true, heavy(false, false, code == 0x257e, code == 0x257c))
    } else if code == 0x257d || code == 0x257f {
        only(true, true, false, false, heavy(code == 0x257f, code == 0x257d, false, false))
    } else {
        Weights { up: 0, down: 0, left: 0, right: 0 }
    }
}

/// Every character has the lines that its name says, and no others.
pub proof fn law_characters_have_the_lines_of_their_names(code: int)
    requires
        0x2500 <= code <= 0x257f,
    ensures
        weights(code)@[0] == named_lines(code).up,
        weights(code)@[1] == named_lines(code).down,
        weights(code)@[2] == named_lines(code).left,
        weights(code)@[3] == named_lines(code).right,
{
    reveal(weights);
}

/// Which quarters of the cell the characters of quarters fill, by their names: one alone, three of
/// them, or two that lie opposite.
pub proof fn law_characters_fill_the_quarters_of_their_names(code: int)
    requires
        0x2596 <= code <= 0x259f,
    ensures
        quarters(code)@[0] == (0x2598 <= code <= 0x259c),
        quarters(code)@[1] == (code == 0x259b || code == 0x259c || code >= 0x259d),
        quarters(code)@[2] == (code == 0x2596 || code == 0x2599 || code == 0x259b || code
            >= 0x259e),
        quarters(code)@[3] == (code == 0x2597 || code == 0x2599 || code == 0x259a || code == 0x259c
            || code == 0x259f),
{
    reveal(quarters);
}

} // verus!
