use vstd::prelude::*;
use crate::board::{on_board, BOARD_SIDE, PADDING};

verus! {

/// Offsets on the padded board between a square and its neighbour in each
/// direction, ranks counted from the side to move.
pub struct Direction {}

impl Direction {
    pub const NORTH: i32 = -12;
    pub const EAST: i32 = 1;
    pub const SOUTH: i32 = 12;
    pub const WEST: i32 = -1;
}

/// The content of one square of the padded board, from the point of view of
/// the side to move.
#[derive(Debug, PartialEq, Eq, Hash, Clone, Copy, Structural)]
pub enum Square {
    MyPawn,
    MyKnight,
    MyBishop,
    MyRook,
    MyQueen,
    MyKing,
    OpponentPawn,
    OpponentKnight,
    OpponentBishop,
    OpponentRook,
    OpponentQueen,
    OpponentKing,
    Empty,
    /// Marks the squares around the board, so that a walk never leaves it.
    Wall,
}

pub open spec fn is_mine(s: Square) -> bool {
    matches!(s, Square::MyPawn | Square::MyKnight | Square::MyBishop | Square::MyRook
        | Square::MyQueen | Square::MyKing)
}

pub open spec fn is_opponent(s: Square) -> bool {
    matches!(s, Square::OpponentPawn | Square::OpponentKnight | Square::OpponentBishop
        | Square::OpponentRook | Square::OpponentQueen | Square::OpponentKing)
}

/// The same square seen by the other side.
pub open spec fn swapped(s: Square) -> Square {
    match s {
        Square::MyPawn => Square::OpponentPawn,
        Square::MyKnight => Square::OpponentKnight,
        Square::MyBishop => Square::OpponentBishop,
        Square::MyRook => Square::OpponentRook,
        Square::MyQueen => Square::OpponentQueen,
        Square::MyKing => Square::OpponentKing,
        Square::OpponentPawn => Square::MyPawn,
        Square::OpponentKnight => Square::MyKnight,
        Square::OpponentBishop => Square::MyBishop,
        Square::OpponentRook => Square::MyRook,
        Square::OpponentQueen => Square::MyQueen,
        Square::OpponentKing => Square::MyKing,
        Square::Empty => Square::Empty,
        Square::Wall => Square::Wall,
    }
}

/// The ray directions of each of my pieces, in the order they are walked.
pub open spec fn directions(s: Square) -> Seq<i32> {
    match s {
        Square::MyPawn => seq![-12i32, -24i32, -13i32, -11i32],
        Square::MyKnight => seq![-23i32, -25i32, -14i32, 10i32, 23i32, 25i32, 14i32, -10i32],
        Square::MyBishop => seq![-11i32, -13i32, 11i32, 13i32],
        Square::MyRook => seq![-12i32, -1i32, 12i32, 1i32],
        Square::MyQueen | Square::MyKing => seq![-12i32, -1i32, 12i32, 1i32, -11i32, -13i32, 11i32, 13i32],
        _ => Seq::empty(),
    }
}

/// Material value of each of my pieces.
pub open spec fn piece_value(s: Square) -> int {
    match s {
        Square::MyPawn => 136,
        Square::MyKnight => 782,
        Square::MyBishop => 830,
        Square::MyRook => 1289,
        Square::MyQueen => 2529,
        Square::MyKing => 32000,
        _ => 0,
    }
}

/// Positional bonus of each of my pieces, rank 8 first, file a first.
#[verifier::opaque]
pub open spec fn square_table(s: Square) -> Seq<int> {
    match s {
        Square::MyPawn => seq![
            0, 0, 0, 0, 0, 0, 0, 0,
            15, 31, 20, 14, 23, 11, 37, 24,
            -1, -3, 15, 26, 1, 10, -7, -9,
            8, -1, -5, 13, 24, 11, -10, 3,
            -9, -18, 8, 32, 43, 25, -4, -16,
            -9, -13, -40, 22, 26, -40, 1, -22,
            2, 0, 15, 3, 11, 22, 11, -1,
            0, 0, 0, 0, 0, 0, 0, 0,
        ],
        Square::MyKnight => seq![
            -200, -80, -53, -32, -32, -53, -80, -200,
            -67, -21, 6, 37, 37, 6, -21, -67,
            -11, 28, 63, 55, 55, 63, 28, -11,
            -29, 13, 42, 52, 52, 42, 13, -29,
            -28, 5, 41, 47, 47, 41, 5, -28,
            -64, -20, 4, 19, 19, 4, -20, -64,
            -79, -39, -24, -9, -9, -24, -39, -79,
            -169, -96, -80, -79, -79, -80, -96, -169,
        ],
        Square::MyBishop => seq![
            -48, -3, -12, -25, -25, -12, -3, -48,
            -21, -19, 10, -6, -6, 10, -19, -21,
            -17, 4, -1, 8, 8, -1, 4, -17,
            -7, 30, 23, 28, 28, 23, 30, -7,
            1, 8, 26, 37, 37, 26, 8, 1,
            -8, 24, -3, 15, 15, -3, 24, -8,
            -18, 7, 14, 3, 3, 14, 7, -18,
            -44, -4, -11, -28, -28, -11, -4, -44,
        ],
        Square::MyRook => seq![
            -22, -24, -6, 4, 4, -6, -24, -22,
            -8, 6, 10, 12, 12, 10, 6, -8,
            -24, -4, 4, 10, 10, 4, -4, -24,
            -24, -12, -1, 6, 6, -1, -12, -24,
            -13, -5, -4, -6, -6, -4, -5, -13,
            -21, -7, 3, -1, -1, 3, -7, -21,
            -18, -10, -5, 9, 9, -5, -10, -18,
            -24, -13, -7, 2, 2, -7, -13, -24,
        ],
        Square::MyQueen => seq![
            -2, -2, 1, -2, -2, 1, -2, -2,
            -5, 6, 10, 8, 8, 10, 6, -5,
            -4, 10, 6, 8, 8, 6, 10, -4,
            0, 14, 12, 5, 5, 12, 14, 0,
            4, 5, 9, 8, 8, 9, 5, 4,
            -3, 6, 13, 7, 7, 13, 6, -3,
            -3, 5, 8, 12, 12, 8, 5, -3,
            3, -5, -5, 4, 4, -5, -5, 3,
        ],
        Square::MyKing => seq![
            6, 8, 4, 0, 0, 4, 8, 6,
            8, 12, 6, 2, 2, 6, 12, 8,
            12, 15, 8, 3, 3, 8, 15, 12,
            14, 17, 11, 6, 6, 11, 17, 15,
            16, 19, 13, 10, 10, 13, 19, 16,
            19, 25, 16, 12, 12, 16, 25, 19,
            27, 30, 24, 18, 18, 24, 30, 27,
            27, 32, 27, 19, 19, 27, 32, 27,
        ],
        _ => Seq::new(64, |i: int| 0),
    }
}

/// Index in an 8x8 table of a square of the padded board.
pub open spec fn table_index(position: int) -> int {
    (position / 12 - 2) * 8 + position % 12 - 2
}

/// Value of one of my pieces standing on a square of the board.
pub open spec fn square_value(s: Square, position: int) -> int {
    piece_value(s) + square_table(s)[table_index(position)]
}

impl Square {
    pub fn is_my_piece(self) -> (r: bool)
        ensures
            r == is_mine(self),
    {
        matches!(self, Square::MyPawn | Square::MyKing | Square::MyRook | Square::MyKnight
            | Square::MyBishop | Square::MyQueen)
    }

    pub fn is_opponent_piece(self) -> (r: bool)
        ensures
            r == is_opponent(self),
    {
        matches!(self, Square::OpponentPawn | Square::OpponentKing | Square::OpponentRook
            | Square::OpponentKnight | Square::OpponentBishop | Square::OpponentQueen)
    }

    pub fn swap_color(self) -> (r: Square)
        ensures
            r == swapped(self),
    {
        match self {
            Square::Empty => Square::Empty,
            Square::Wall => Square::Wall,
            Square::MyPawn => Square::OpponentPawn,
            Square::MyKing => Square::OpponentKing,
            Square::MyRook => Square::OpponentRook,
            Square::MyKnight => Square::OpponentKnight,
            Square::MyBishop => Square::OpponentBishop,
            Square::MyQueen => Square::OpponentQueen,
            Square::OpponentPawn => Square::MyPawn,
            Square::OpponentKing => Square::MyKing,
            Square::OpponentRook => Square::MyRook,
            Square::OpponentKnight => Square::MyKnight,
            Square::OpponentBishop => Square::MyBishop,
            Square::OpponentQueen => Square::MyQueen,
        }
    }

    /// Number of ray directions of one of my pieces.
    pub fn direction_count(self) -> (r: usize)
        requires
            is_mine(self),
        ensures
            r == directions(self).len(),
    {
        match self {
            Square::MyPawn | Square::MyBishop | Square::MyRook => 4,
            _ => 8,
        }
    }

    /// The `i`-th ray direction of one of my pieces.
    pub fn direction(self, i: usize) -> (r: i32)
        requires
            is_mine(self),
            i < directions(self).len(),
        ensures
            r == directions(self)[i as int],
    {
        let north = Direction::NORTH;
        let east = Direction::EAST;
        let south = Direction::SOUTH;
        let west = Direction::WEST;
        match self {
            Square::MyPawn => {
                let d: [i32; 4] = [north, north + north, north + west, north + east];
                d[i]
            },
            Square::MyKnight => {
                let d: [i32; 8] = [
                    north + north + east,
                    north + north + west,
                    west + west + north,
                    west + west + south,
                    south + south + west,
                    south + south + east,
                    east + east + south,
                    east + east + north,
                ];
                d[i]
            },
            Square::MyBishop => {
                let d: [i32; 4] = [north + east, north + west, west + south, south + east];
                d[i]
            },
            Square::MyRook => {
                let d: [i32; 4] = [north, west, south, east];
                d[i]
            },
            _ => {
                let d: [i32; 8] = [
                    north,
                    west,
                    south,
                    east,
                    north + east,
                    north + west,
                    west + south,
                    south + east,
                ];
                d[i]
            },
        }
    }

    /// The ray directions of one of my pieces.
    pub fn moves(self) -> (r: Vec<i32>)
        requires
            is_mine(self),
        ensures
            r@ == directions(self),
    {
        let n = self.direction_count();
        let mut r: Vec<i32> = Vec::with_capacity(n);
        let mut i: usize = 0;
        while i < n
            invariant
                is_mine(self),
                n == directions(self).len(),
                i <= n,
                r@ == directions(self).take(i as int),
            decreases n - i,
        {
            r.push(self.direction(i));
            i = i + 1;
        }
        assert(r@ =~= directions(self));
        r
    }

    /// Material plus positional value of one of my pieces on a square of the
    /// board.
    pub fn midgame_value(self, position: usize) -> (r: i32)
        requires
            is_mine(self),
            on_board(position as int),
        ensures
            r == square_value(self, position as int),
            0 <= r <= 32032,
    {
        reveal(square_table);
        let piece_value: i32 = match self {
            Square::MyPawn => 136,
            Square::MyKnight => 782,
            Square::MyBishop => 830,
            Square::MyRook => 1289,
            Square::MyQueen => 2529,
            _ => 32000,
        };
        let table: [i32; 64] = match self {
            Square::MyPawn => [
                0, 0, 0, 0, 0, 0, 0, 0,
                15, 31, 20, 14, 23, 11, 37, 24,
                -1, -3, 15, 26, 1, 10, -7, -9,
                8, -1, -5, 13, 24, 11, -10, 3,
                -9, -18, 8, 32, 43, 25, -4, -16,
                -9, -13, -40, 22, 26, -40, 1, -22,
                2, 0, 15, 3, 11, 22, 11, -1,
                0, 0, 0, 0, 0, 0, 0, 0,
            ],
            Square::MyKnight => [
                -200, -80, -53, -32, -32, -53, -80, -200,
                -67, -21, 6, 37, 37, 6, -21, -67,
                -11, 28, 63, 55, 55, 63, 28, -11,
                -29, 13, 42, 52, 52, 42, 13, -29,
                -28, 5, 41, 47, 47, 41, 5, -28,
                -64, -20, 4, 19, 19, 4, -20, -64,
                -79, -39, -24, -9, -9, -24, -39, -79,
                -169, -96, -80, -79, -79, -80, -96, -169,
            ],
            Square::MyBishop => [
                -48, -3, -12, -25, -25, -12, -3, -48,
                -21, -19, 10, -6, -6, 10, -19, -21,
                -17, 4, -1, 8, 8, -1, 4, -17,
                -7, 30, 23, 28, 28, 23, 30, -7,
                1, 8, 26, 37, 37, 26, 8, 1,
                -8, 24, -3, 15, 15, -3, 24, -8,
                -18, 7, 14, 3, 3, 14, 7, -18,
                -44, -4, -11, -28, -28, -11, -4, -44,
            ],
            Square::MyRook => [
                -22, -24, -6, 4, 4, -6, -24, -22,
                -8, 6, 10, 12, 12, 10, 6, -8,
                -24, -4, 4, 10, 10, 4, -4, -24,
                -24, -12, -1, 6, 6, -1, -12, -24,
                -13, -5, -4, -6, -6, -4, -5, -13,
                -21, -7, 3, -1, -1, 3, -7, -21,
                -18, -10, -5, 9, 9, -5, -10, -18,
                -24, -13, -7, 2, 2, -7, -13, -24,
            ],
            Square::MyQueen => [
                -2, -2, 1, -2, -2, 1, -2, -2,
                -5, 6, 10, 8, 8, 10, 6, -5,
                -4, 10, 6, 8, 8, 6, 10, -4,
                0, 14, 12, 5, 5, 12, 14, 0,
                4, 5, 9, 8, 8, 9, 5, 4,
                -3, 6, 13, 7, 7, 13, 6, -3,
                -3, 5, 8, 12, 12, 8, 5, -3,
                3, -5, -5, 4, 4, -5, -5, 3,
            ],
            Square::MyKing => [
                6, 8, 4, 0, 0, 4, 8, 6,
                8, 12, 6, 2, 2, 6, 12, 8,
                12, 15, 8, 3, 3, 8, 15, 12,
                14, 17, 11, 6, 6, 11, 17, 15,
                16, 19, 13, 10, 10, 13, 19, 16,
                19, 25, 16, 12, 12, 16, 25, 19,
                27, 30, 24, 18, 18, 24, 30, 27,
                27, 32, 27, 19, 19, 27, 32, 27,
            ],
            _ => [0; 64],
        };
        let row = position / BOARD_SIDE - PADDING;
        let column = position % BOARD_SIDE - PADDING;
        piece_value + table[row * 8 + column]
    }
}

} // verus!
