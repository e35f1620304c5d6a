use opening_stats::classify::{matches_filters, Side};
use opening_stats::entry::{merge_entry, Entry};
use opening_stats::game::{get_game_accuracy, get_game_result, Accuracies, Game, PieceInfo};
use opening_stats::kvmap::StrKeyMap;
use opening_stats::periods::{is_future_month, resolve_periods};
use opening_stats::pipeline::{add_game_to_output, aggregate_games};
use opening_stats::results::GameResult;

/// An accuracy score as the library's fixed-point value.
fn accuracy(score: f64) -> u64 {
    (score * 4294967296.0) as u64
}

fn histogram(counts: &[(&str, u32)]) -> GameResult {
    let mut map: StrKeyMap<u32> = StrKeyMap::new();
    for (outcome, n) in counts {
        map.insert((*outcome).to_string(), *n);
    }
    GameResult { map }
}

fn entry(count: u32, eco: &str, eco_url: &str, counts: &[(&str, u32)], acc: Option<u64>) -> Entry {
    Entry {
        count,
        eco: eco.to_string(),
        eco_url: eco_url.to_string(),
        results: histogram(counts),
        average_accuracy: acc,
    }
}

fn game(pgn: &str, black_result: &str, white_result: &str, acc: Option<(u64, u64)>, time_class: &str) -> Game {
    Game {
        accuracies: acc.map(|(black, white)| Accuracies { black, white }),
        pgn: pgn.to_string(),
        black: PieceInfo { result: black_result.to_string() },
        white: PieceInfo { result: white_result.to_string() },
        time_class: time_class.to_string(),
    }
}

#[test]
fn merge_with_no_existing_entry_returns_incoming_unchanged() {
    let incoming = entry(3, "B10", "https://x/y/Caro-Kann", &[("win", 2), ("timeout", 1)], Some(accuracy(77.5)));
    let merged = merge_entry(None, incoming);
    assert_eq!(merged.count, 3);
    assert_eq!(merged.eco, "B10");
    assert_eq!(merged.eco_url, "https://x/y/Caro-Kann");
    assert_eq!(merged.results.map.get("win"), Some(&2));
    assert_eq!(merged.results.map.get("timeout"), Some(&1));
    assert_eq!(merged.results.map.pairs.len(), 2);
    assert_eq!(merged.average_accuracy, Some(accuracy(77.5)));
}

#[test]
fn merge_sums_counts_and_result_histograms() {
    let incoming = entry(1, "", "", &[("win", 1)], None);
    let existing = entry(3, "", "", &[("win", 2), ("loss", 1)], None);
    let merged = merge_entry(Some(&existing), incoming);
    assert_eq!(merged.count, 4);
    assert_eq!(merged.results.map.get("win"), Some(&3));
    assert_eq!(merged.results.map.get("loss"), Some(&1));
    assert_eq!(merged.results.map.pairs.len(), 2);
}

#[test]
fn empty_eco_url_never_overwrites_a_recorded_one() {
    let url = "https://x/y/z";
    // empty incoming, recorded existing
    let a = merge_entry(Some(&entry(1, "", url, &[("win", 1)], None)), entry(1, "", "", &[("win", 1)], None));
    assert_eq!(a.eco_url, url);
    // recorded incoming, empty existing
    let b = merge_entry(Some(&entry(1, "", "", &[("win", 1)], None)), entry(1, "", url, &[("win", 1)], None));
    assert_eq!(b.eco_url, url);
}

#[test]
fn empty_eco_code_is_backfilled_the_same_way() {
    let a = merge_entry(Some(&entry(1, "B10", "", &[("win", 1)], None)), entry(1, "", "", &[("win", 1)], None));
    assert_eq!(a.eco, "B10");
    let b = merge_entry(Some(&entry(1, "", "", &[("win", 1)], None)), entry(1, "B10", "", &[("win", 1)], None));
    assert_eq!(b.eco, "B10");
}

#[test]
fn accuracy_merge_is_the_pairwise_average() {
    let a = entry(1, "", "", &[("win", 1)], Some(accuracy(80.0)));
    let b = entry(1, "", "", &[("win", 1)], Some(accuracy(90.0)));
    let merged = merge_entry(Some(&b), a);
    assert_eq!(merged.average_accuracy, Some(accuracy(85.0)));
    let as_score = merged.average_accuracy.unwrap() as f64 / 4294967296.0;
    assert_eq!(as_score, 85.0);
}

#[test]
fn accuracy_from_one_side_only_is_kept() {
    let some = Some(accuracy(64.25));
    let kept = merge_entry(
        Some(&entry(1, "", "", &[("win", 1)], None)),
        entry(1, "", "", &[("win", 1)], some),
    );
    assert_eq!(kept.average_accuracy, some);
    let kept_other_way = merge_entry(
        Some(&entry(1, "", "", &[("win", 1)], some)),
        entry(1, "", "", &[("win", 1)], None),
    );
    assert_eq!(kept_other_way.average_accuracy, some);
    let none = merge_entry(
        Some(&entry(1, "", "", &[("win", 1)], None)),
        entry(1, "", "", &[("win", 1)], None),
    );
    assert_eq!(none.average_accuracy, None);
}

#[test]
fn game_result_is_a_one_outcome_histogram_of_the_matched_side() {
    let g = game("", "win", "resigned", None, "blitz");
    let black = get_game_result(Side::Black, &g);
    assert_eq!(black.map.get("win"), Some(&1));
    assert_eq!(black.map.pairs.len(), 1);
    let white = get_game_result(Side::White, &g);
    assert_eq!(white.map.get("resigned"), Some(&1));
}

#[test]
fn missing_accuracies_pair_yields_none_not_zero() {
    let g = game("", "win", "loss", None, "blitz");
    assert_eq!(get_game_accuracy(Side::Black, &g), None);
    let with = game("", "win", "loss", Some((accuracy(81.0), accuracy(92.0))), "blitz");
    assert_eq!(get_game_accuracy(Side::Black, &with), Some(accuracy(81.0)));
    assert_eq!(get_game_accuracy(Side::White, &with), Some(accuracy(92.0)));
}

#[test]
fn filters_compare_case_insensitively() {
    assert!(matches_filters(Side::Black, "BLACK", "Blitz", "blitz"));
    assert!(matches_filters(Side::White, "white", "RAPID", "Rapid"));
    assert!(!matches_filters(Side::Black, "white", "blitz", "blitz"));
    assert!(!matches_filters(Side::Black, "black", "bullet", "blitz"));
}

#[test]
fn pipeline_aggregates_matching_game_and_filters_other_color() {
    // the target played Black (a win) in one game and White (resigned) in
    // the other; only the Black game passes the color filter
    let g1 = game(
        "[Black \"target\"]\n[White \"rival\"]\n[ECO \"C50\"]\n[ECOUrl \"https://x/y/Italian-Game\"]",
        "win",
        "resigned",
        None,
        "blitz",
    );
    let g2 = game(
        "[Black \"rival\"]\n[White \"TARGET\"]\n[ECO \"C50\"]\n[ECOUrl \"https://x/y/Italian-Game\"]",
        "win",
        "resigned",
        None,
        "blitz",
    );
    let json = aggregate_games("target", "black", "blitz", &vec![vec![g1, g2]]);
    assert_eq!(json.pairs.len(), 1);
    let e = json.get("Italian-Game").expect("one opening entry");
    assert_eq!(e.count, 1);
    assert_eq!(e.results.map.get("win"), Some(&1));
    assert_eq!(e.results.map.pairs.len(), 1);
    assert_eq!(e.eco, "C50");
    assert_eq!(e.eco_url, "https://x/y/Italian-Game");
    assert_eq!(e.average_accuracy, None);
}

#[test]
fn pipeline_merges_two_games_of_the_same_opening() {
    let pgn = "[Black \"target\"]\n[White \"rival\"]\n[ECOUrl \"https://x/y/Caro-Kann\"]";
    let g1 = game(pgn, "win", "resigned", Some((accuracy(80.0), accuracy(50.0))), "blitz");
    let g2 = game(pgn, "checkmated", "win", Some((accuracy(90.0), accuracy(60.0))), "blitz");
    let mut json: StrKeyMap<Entry> = StrKeyMap::new();
    add_game_to_output("target", "black", "blitz", &mut json, &g1);
    add_game_to_output("target", "black", "blitz", &mut json, &g2);
    let e = json.get("Caro-Kann").expect("entry");
    assert_eq!(e.count, 2);
    assert_eq!(e.results.map.get("win"), Some(&1));
    assert_eq!(e.results.map.get("checkmated"), Some(&1));
    // pairwise average of the black-side accuracies of the two games
    assert_eq!(e.average_accuracy, Some(accuracy(85.0)));
}

#[test]
fn pipeline_skips_game_with_wrong_time_class() {
    let g = game(
        "[Black \"target\"]\n[White \"rival\"]\n[ECOUrl \"https://x/y/z\"]",
        "win",
        "resigned",
        None,
        "bullet",
    );
    let json = aggregate_games("target", "black", "blitz", &vec![vec![g]]);
    assert_eq!(json.pairs.len(), 0);
}

#[test]
fn pipeline_skips_game_without_eco_url() {
    let g = game("[Black \"target\"]\n[White \"rival\"]", "win", "resigned", None, "blitz");
    let json = aggregate_games("target", "black", "blitz", &vec![vec![g]]);
    assert_eq!(json.pairs.len(), 0);
}

#[test]
fn pipeline_skips_game_without_player_tags() {
    let g = game("[ECOUrl \"https://x/y/z\"]", "win", "resigned", None, "blitz");
    let json = aggregate_games("target", "black", "blitz", &vec![vec![g]]);
    assert_eq!(json.pairs.len(), 0);
}

#[test]
fn resolve_periods_defaults_to_current_year_all_months() {
    let periods = resolve_periods(None, None, None, None, 2024);
    assert_eq!(periods.len(), 12);
    assert_eq!(periods[0], (2024, 1));
    assert_eq!(periods[11], (2024, 12));
}

#[test]
fn resolve_periods_spans_years_and_month_window() {
    let periods = resolve_periods(Some(11), Some(2022), Some(12), Some(2023), 2024);
    assert_eq!(periods, vec![(2022, 11), (2022, 12), (2023, 11), (2023, 12)]);
}

#[test]
fn resolve_periods_of_an_inverted_window_is_empty() {
    let periods = resolve_periods(Some(5), Some(2024), Some(3), Some(2024), 2024);
    assert!(periods.is_empty());
    let years = resolve_periods(None, Some(2025), None, Some(2024), 2024);
    assert!(years.is_empty());
}

#[test]
fn future_months_of_the_current_year_are_skipped() {
    assert!(is_future_month(2024, 7, 2024, 6));
    assert!(!is_future_month(2024, 6, 2024, 6));
    assert!(!is_future_month(2023, 12, 2024, 6));
    assert!(!is_future_month(2025, 1, 2024, 6));
}
