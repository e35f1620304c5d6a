//! The classifier: which color the target player took in a game, and
//! whether the game passes the requested color and time-class filters.
//! All matching is case-insensitive.

use vstd::prelude::*;

use crate::tags::ParsedPgnTags;

verus! {

/// The color a player took in one game.
#[derive(Clone, Copy, Debug, PartialEq, Eq, Structural)]
pub enum Side {
    Black,
    White,
}

/// The character sequence `str::to_lowercase` yields for `s`: a function
/// of the characters alone.
pub uninterp spec fn lower_of(s: Seq<char>) -> Seq<char>;

/// Relies on `str::to_lowercase`: the result depends on the input
/// characters alone (Unicode lowercasing, with no locale or environment
/// input).
#[verifier::external_body]
fn to_lowercase_string(s: &str) -> (r: String)
    ensures
        r@ == lower_of(s@),
{
    s.to_lowercase()
}

/// The side whose player tag matches the target username, the `Black` tag
/// taking priority, or none when neither matches.
pub open spec fn spec_side(black: Seq<char>, white: Seq<char>, user: Seq<char>) -> Option<Side> {
    if lower_of(black) == lower_of(user) {
        Some(Side::Black)
    } else if lower_of(white) == lower_of(user) {
        Some(Side::White)
    } else {
        None
    }
}

/// Which side the target user played: the username is matched
/// case-insensitively against the `Black` tag first, then the `White`
/// tag; no match means the target did not play this game.
pub fn get_user_pieces(username: &str, tags: &ParsedPgnTags) -> (r: Option<Side>)
    ensures
        r == spec_side(tags.black@, tags.white@, username@),
{
    let user_lower: String = to_lowercase_string(username);
    let black_lower: String = to_lowercase_string(tags.black.as_str());
    if black_lower == user_lower {
        return Some(Side::Black);
    }
    let white_lower: String = to_lowercase_string(tags.white.as_str());
    if white_lower == user_lower {
        return Some(Side::White);
    }
    None
}

/// The label under which a side is recorded.
pub open spec fn spec_side_label(side: Side) -> Seq<char> {
    match side {
        Side::Black => "Black"@,
        Side::White => "White"@,
    }
}

/// The side's label, `"Black"` or `"White"`.
pub fn side_label(side: Side) -> (r: &'static str)
    ensures
        r@ == spec_side_label(side),
{
    match side {
        Side::Black => "Black",
        Side::White => "White",
    }
}

/// Whether the matched side is the requested color and the game's time
/// class is the requested one, both compared case-insensitively.
pub open spec fn spec_matches_filters(
    side: Side,
    requested_color: Seq<char>,
    game_time_class: Seq<char>,
    requested_time_class: Seq<char>,
) -> bool {
    lower_of(spec_side_label(side)) == lower_of(requested_color) && lower_of(game_time_class)
        == lower_of(requested_time_class)
}

/// True only when the matched side equals the requested color and the
/// game's time class equals the requested time class, case-insensitively.
/// A non-match is a normal skip, not an error.
pub fn matches_filters(
    side: Side,
    requested_color: &str,
    game_time_class: &str,
    requested_time_class: &str,
) -> (r: bool)
    ensures
        r == spec_matches_filters(
            side,
            requested_color@,
            game_time_class@,
            requested_time_class@,
        ),
{
    let side_lower: String = to_lowercase_string(side_label(side));
    let color_lower: String = to_lowercase_string(requested_color);
    let game_tc_lower: String = to_lowercase_string(game_time_class);
    let requested_tc_lower: String = to_lowercase_string(requested_time_class);
    side_lower == color_lower && game_tc_lower == requested_tc_lower
}

} // verus!
