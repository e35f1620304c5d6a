//! The opening resolver: the canonical opening name is the final path
//! segment of the game's ECO URL.

use vstd::prelude::*;
use vstd::string::StrSliceExecFns;

use crate::tags::{rfind_char, rfind_char_in, ParsedPgnTags};

verus! {

/// The opening name an ECO URL denotes: the text after its last `/`, or
/// the whole string when it has no `/`; none when the URL is empty (the
/// tag was never observed), in which case the game cannot be classified
/// by opening.
pub open spec fn spec_opening_name(eco_url: Seq<char>) -> Option<Seq<char>> {
    if eco_url.len() == 0 {
        None
    } else {
        match rfind_char(eco_url, '/') {
            Some(i) => Some(eco_url.subrange(i + 1, eco_url.len() as int)),
            None => Some(eco_url),
        }
    }
}

/// Derives the opening name from the parsed `ECOUrl` tag, as
/// [`spec_opening_name`] describes; a game without that tag is skipped.
pub fn get_opening_name(tags: &ParsedPgnTags) -> (r: Option<String>)
    ensures
        (match r {
            Some(name) => spec_opening_name(tags.eco_url@) == Some(name@),
            None => spec_opening_name(tags.eco_url@) is None,
        }),
{
    let url: &str = tags.eco_url.as_str();
    let n: usize = url.unicode_len();
    if n == 0 {
        return None;
    }
    match rfind_char_in(url, '/') {
        Some(i) => Some(url.substring_char(i + 1, n).to_owned()),
        None => Some(url.to_owned()),
    }
}

} // verus!
