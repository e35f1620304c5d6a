//! The pipeline driver: folds each raw game record, in arrival order,
//! into the per-opening summary map. Per game: parse the PGN tags,
//! identify the target's side, apply the color and time-class filters,
//! resolve the opening name, extract the outcome and accuracy, and merge
//! a fresh one-game entry into the map. A game that cannot be classified
//! is a normal skip; nothing in here ever aborts the run for a single
//! record.

use vstd::prelude::*;

use crate::classify::{get_user_pieces, matches_filters, spec_matches_filters, spec_side};
use crate::entry::{merge_entry, spec_merge_entry, Entry, EntryV};
use crate::game::{get_game_accuracy, get_game_result, spec_accuracy, spec_outcome, Game};
use crate::kvmap::StrKeyMap;
use crate::opening::{get_opening_name, spec_opening_name};
use crate::tags::{parse_tags, parse_tags_spec, tag_or_empty, ParsedPgnTags};

verus! {

/// The per-opening summary map, keyed by opening name.
pub type OpeningMap = StrKeyMap<Entry>;

/// Keys are distinct and every stored accumulator is well-formed.
pub open spec fn opening_map_wf(m: &OpeningMap) -> bool {
    &&& m.wf()
    &&& forall|i: int| 0 <= i < m.pairs@.len() ==> (#[trigger] m.pairs@[i]).1.wf()
}

/// The one-game accumulator a classified game contributes.
pub open spec fn spec_fresh_entry(side: crate::classify::Side, tags: Map<Seq<char>, Seq<char>>, g: Game) -> EntryV {
    (EntryV {
        count: 1,
        eco: tag_or_empty(tags, "ECO"@),
        eco_url: tag_or_empty(tags, "ECOUrl"@),
        results: Map::<Seq<char>, u32>::empty().insert(spec_outcome(side, g), 1u32),
        average_accuracy: spec_accuracy(side, g),
    })
}

/// How one raw game changes the summary map. A game is skipped — the map
/// unchanged — when a player tag is missing, the target played neither
/// side, a filter rejects the game, the opening cannot be resolved, or
/// the opening's accumulator can count no further game.
pub open spec fn spec_game_update(
    user: Seq<char>,
    requested_color: Seq<char>,
    requested_time_class: Seq<char>,
    m: Map<Seq<char>, EntryV>,
    g: Game,
) -> Map<Seq<char>, EntryV> {
    let tags = parse_tags_spec(g.pgn@);
    if !(tags.contains_key("Black"@) && tags.contains_key("White"@)) {
        m
    } else {
        match spec_side(tags["Black"@], tags["White"@], user) {
            None => m,
            Some(side) => if !spec_matches_filters(
                side,
                requested_color,
                g.time_class@,
                requested_time_class,
            ) {
                m
            } else {
                match spec_opening_name(tag_or_empty(tags, "ECOUrl"@)) {
                    None => m,
                    Some(name) => {
                        let fresh = spec_fresh_entry(side, tags, g);
                        if m.contains_key(name) {
                            if m[name].count + 1 > u32::MAX {
                                m
                            } else {
                                m.insert(name, spec_merge_entry(fresh, m[name]))
                            }
                        } else {
                            m.insert(name, fresh)
                        }
                    },
                }
            },
        }
    }
}

/// A game whose tag text lacks a `Black` or a `White` line never changes
/// the map: no player side can be identified, so the game is skipped.
pub proof fn lemma_no_player_tags_skips_game(
    user: Seq<char>,
    requested_color: Seq<char>,
    requested_time_class: Seq<char>,
    m: Map<Seq<char>, EntryV>,
    g: Game,
)
    requires
        !parse_tags_spec(g.pgn@).contains_key("Black"@) || !parse_tags_spec(
            g.pgn@,
        ).contains_key("White"@),
    ensures
        spec_game_update(user, requested_color, requested_time_class, m, g) == m,
{
}

/// Processes one raw game record as [`spec_game_update`] describes.
pub fn add_game_to_output(
    username: &str,
    pieces: &str,
    time_class: &str,
    json: &mut OpeningMap,
    game: &Game,
)
    requires
        opening_map_wf(old(json)),
    ensures
        opening_map_wf(final(json)),
        final(json)@ == spec_game_update(username@, pieces@, time_class@, old(json)@, *game),
{
    let tags = parse_tags(game.pgn.as_str());
    let pt: ParsedPgnTags = match ParsedPgnTags::from_tag_map(&tags) {
        Some(pt) => pt,
        None => {
            return;
        },
    };
    let side = match get_user_pieces(username, &pt) {
        Some(side) => side,
        None => {
            return;
        },
    };
    if !matches_filters(side, pieces, game.time_class.as_str(), time_class) {
        return;
    }
    let accuracy = get_game_accuracy(side, game);
    let opening: String = match get_opening_name(&pt) {
        Some(opening) => opening,
        None => {
            return;
        },
    };
    let results = get_game_result(side, game);
    let new_entry = Entry {
        count: 1,
        eco: pt.eco,
        eco_url: pt.eco_url,
        results,
        average_accuracy: accuracy,
    };
    proof {
        assert(new_entry@ =~= spec_fresh_entry(side, tags@, *game));
    }
    let merged: Entry = match json.get(opening.as_str()) {
        Some(existing) => {
            proof {
                let i = choose|i: int|
                    0 <= i < json.pairs@.len() && (#[trigger] json.pairs@[i]).0@ == opening@
                        && *existing == json.pairs@[i].1;
                assert(existing.wf());
            }
            if existing.count == u32::MAX {
                return;
            }
            merge_entry(Some(existing), new_entry)
        },
        None => merge_entry(None, new_entry),
    };
    let ghost pre = *json;
    json.insert(opening, merged);
    proof {
        assert forall|i: int| 0 <= i < json.pairs@.len() implies (
        #[trigger] json.pairs@[i]).1.wf() by {
            if exists|j: int|
                0 <= j < pre.pairs@.len() && (#[trigger] pre.pairs@[j]).0@ == opening@
                    && json.pairs@ == pre.pairs@.update(j, (opening, merged)) {
                let j = choose|j: int|
                    0 <= j < pre.pairs@.len() && (#[trigger] pre.pairs@[j]).0@ == opening@
                        && json.pairs@ == pre.pairs@.update(j, (opening, merged));
                if i != j {
                    assert(json.pairs@[i] == pre.pairs@[i]);
                }
            } else {
                if i < pre.pairs@.len() {
                    assert(json.pairs@[i] == pre.pairs@[i]);
                }
            }
        }
    }
}

/// The map after the games of one batch, folded in order.
pub open spec fn spec_batch_update(
    user: Seq<char>,
    requested_color: Seq<char>,
    requested_time_class: Seq<char>,
    m: Map<Seq<char>, EntryV>,
    games: Seq<Game>,
) -> Map<Seq<char>, EntryV>
    decreases games.len(),
{
    if games.len() == 0 {
        m
    } else {
        spec_game_update(
            user,
            requested_color,
            requested_time_class,
            spec_batch_update(user, requested_color, requested_time_class, m, games.drop_last()),
            games.last(),
        )
    }
}

/// The map after every batch, folded in arrival order.
pub open spec fn spec_batches_update(
    user: Seq<char>,
    requested_color: Seq<char>,
    requested_time_class: Seq<char>,
    m: Map<Seq<char>, EntryV>,
    batches: Seq<Vec<Game>>,
) -> Map<Seq<char>, EntryV>
    decreases batches.len(),
{
    if batches.len() == 0 {
        m
    } else {
        spec_batch_update(
            user,
            requested_color,
            requested_time_class,
            spec_batches_update(
                user,
                requested_color,
                requested_time_class,
                m,
                batches.drop_last(),
            ),
            batches.last()@,
        )
    }
}

/// Builds the per-opening summary of every retrieved batch, the games of
/// each batch folded in arrival order. A retrieval that failed upstream
/// is simply a batch with zero games.
pub fn aggregate_games(
    username: &str,
    pieces: &str,
    time_class: &str,
    batches: &Vec<Vec<Game>>,
) -> (r: OpeningMap)
    ensures
        opening_map_wf(&r),
        r@ == spec_batches_update(
            username@,
            pieces@,
            time_class@,
            Map::<Seq<char>, EntryV>::empty(),
            batches@,
        ),
{
    let mut json: OpeningMap = StrKeyMap::new();
    let nb: usize = batches.len();
    let mut b: usize = 0;
    proof {
        assert(batches@.take(0) =~= Seq::<Vec<Game>>::empty());
    }
    while b < nb
        invariant
            nb == batches@.len(),
            0 <= b <= nb,
            opening_map_wf(&json),
            json@ == spec_batches_update(
                username@,
                pieces@,
                time_class@,
                Map::<Seq<char>, EntryV>::empty(),
                batches@.take(b as int),
            ),
        decreases nb - b,
    {
        let games: &Vec<Game> = &batches[b];
        let ghost base = json@;
        let ng: usize = games.len();
        let mut g: usize = 0;
        proof {
            assert(games@.take(0) =~= Seq::<Game>::empty());
        }
        while g < ng
            invariant
                nb == batches@.len(),
                0 <= b < nb,
                ng == games@.len(),
                0 <= g <= ng,
                games@ == batches@[b as int]@,
                opening_map_wf(&json),
                json@ == spec_batch_update(
                    username@,
                    pieces@,
                    time_class@,
                    base,
                    games@.take(g as int),
                ),
            decreases ng - g,
        {
            add_game_to_output(username, pieces, time_class, &mut json, &games[g]);
            proof {
                assert(games@.take(g as int + 1).drop_last() =~= games@.take(g as int));
                assert(games@.take(g as int + 1).last() == games@[g as int]);
            }
            g = g + 1;
        }
        proof {
            assert(games@.take(ng as int) =~= games@);
            assert(batches@.take(b as int + 1).drop_last() =~= batches@.take(b as int));
            assert(batches@.take(b as int + 1).last() == batches@[b as int]);
        }
        b = b + 1;
    }
    proof {
        assert(batches@.take(nb as int) =~= batches@);
    }
    json
}

} // verus!
