use vstd::prelude::*;

verus! {

/// The side length of a Stratego board.
pub const BOARD_SIZE: usize = 10;

/// The pieces of Stratego.
#[derive(Copy, Clone, Debug, PartialEq, Eq, Structural)]
pub enum PieceType {
    Bomb,
    Marshal,
    General,
    Colonel,
    Major,
    Captain,
    Lieutenant,
    Sergeant,
    Miner,
    Scout,
    Spy,
    Flag,
}

/// The character that stands for a piece on a written board: its rank
/// digit, or `B`, `S` and `F` for the bomb, the spy and the flag.
pub open spec fn piece_symbol(piece: PieceType) -> u8 {
    match piece {
        PieceType::Bomb => 66,
        PieceType::Marshal => 49,
        PieceType::General => 50,
        PieceType::Colonel => 51,
        PieceType::Major => 52,
        PieceType::Captain => 53,
        PieceType::Lieutenant => 54,
        PieceType::Sergeant => 55,
        PieceType::Miner => 56,
        PieceType::Scout => 57,
        PieceType::Spy => 83,
        PieceType::Flag => 70,
    }
}

impl PieceType {
    pub fn symbol(&self) -> (r: u8)
        ensures
            r == piece_symbol(*self),
    {
        match self {
            PieceType::Bomb => 66,
            PieceType::Marshal => 49,
            PieceType::General => 50,
            PieceType::Colonel => 51,
            PieceType::Major => 52,
            PieceType::Captain => 53,
            PieceType::Lieutenant => 54,
            PieceType::Sergeant => 55,
            PieceType::Miner => 56,
            PieceType::Scout => 57,
            PieceType::Spy => 83,
            PieceType::Flag => 70,
        }
    }
}

} // verus!
