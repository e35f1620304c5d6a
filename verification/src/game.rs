//! The raw per-game record the retrieval boundary hands in, and the
//! result extractor that reads the matched side's outcome and accuracy
//! out of it.

use vstd::prelude::*;

use crate::classify::Side;
use crate::results::GameResult;

verus! {

/// One color's sub-record: its game-outcome token, verbatim from the
/// upstream outcome vocabulary (`"win"`, `"resigned"`, `"timeout"`, ...).
pub struct PieceInfo {
    pub result: String,
}

/// The accuracy scores of the two players, in the library's fixed-point
/// form (see [`crate::entry::Entry`]): the score `s` as `s * 2^32`.
pub struct Accuracies {
    pub black: u64,
    pub white: u64,
}

/// One raw game record: the PGN text, both per-color sub-records, the
/// optional accuracies pair, and the time-class label.
pub struct Game {
    pub accuracies: Option<Accuracies>,
    pub pgn: String,
    pub black: PieceInfo,
    pub white: PieceInfo,
    pub time_class: String,
}

/// The outcome token belonging to the matched side.
pub open spec fn spec_outcome(side: Side, g: Game) -> Seq<char> {
    match side {
        Side::Black => g.black.result@,
        Side::White => g.white.result@,
    }
}

/// The accuracy recorded for the matched side, if the game carries the
/// accuracies pair.
pub open spec fn spec_accuracy(side: Side, g: Game) -> Option<u64> {
    match g.accuracies {
        Some(a) => Some(
            match side {
                Side::Black => a.black,
                Side::White => a.white,
            },
        ),
        None => None,
    }
}

/// The matched side's outcome token, unchanged, as a one-game histogram.
pub fn get_game_result(side: Side, game: &Game) -> (r: GameResult)
    ensures
        r.wf(),
        r.total() == 1,
        r@ == Map::<Seq<char>, u32>::empty().insert(spec_outcome(side, *game), 1u32),
{
    let outcome: String = match side {
        Side::Black => game.black.result.clone(),
        Side::White => game.white.result.clone(),
    };
    GameResult::singleton(outcome)
}

/// The matched side's accuracy, or nothing when the game carries no
/// accuracies pair — a missing accuracy is never treated as zero.
pub fn get_game_accuracy(side: Side, game: &Game) -> (r: Option<u64>)
    ensures
        r == spec_accuracy(side, *game),
{
    match &game.accuracies {
        Some(a) => Some(
            match side {
                Side::Black => a.black,
                Side::White => a.white,
            },
        ),
        None => None,
    }
}

} // verus!
