//! Tests of the library's stated properties on concrete values.

use toitoi::division::divide;
use toitoi::score::score;
use toitoi::tile::tile_from_string;
use toitoi::tile::tiles_from_string;
use toitoi::tile::Tile;
use toitoi::types::Call;
use toitoi::types::FuReason;
use toitoi::types::HanReason;
use toitoi::types::HandContext;
use toitoi::types::Yaku;

fn ctw(winning_tile: &str, is_tsumo: bool, round_wind: &str, player_wind: &str) -> HandContext {
    HandContext {
        winning_tile: tile_from_string(winning_tile),
        is_tsumo,
        round_wind: tile_from_string(round_wind),
        player_wind: tile_from_string(player_wind),
        ..Default::default()
    }
}

/// Two evaluations of the same inputs give the same ordered results.
#[test]
fn evaluate_is_deterministic() {
    let tiles = tiles_from_string("5667788m678p678s");
    let calls: Vec<Call> = vec![];
    let context = ctw("5m", false, "1z", "3z");

    let a = score(&tiles, &calls, &context);
    let b = score(&tiles, &calls, &context);

    assert_eq!(a.len(), b.len());
    for i in 0..a.len() {
        assert_eq!(a[i].fu(), b[i].fu());
        assert_eq!(a[i].fu_reasons(), b[i].fu_reasons());
        assert_eq!(a[i].han(), b[i].han());
        assert_eq!(a[i].han_reasons(), b[i].han_reasons());
        assert_eq!(a[i].pair(), b[i].pair());
        assert_eq!(a[i].melds(), b[i].melds());
        assert_eq!(a[i].remaining(), b[i].remaining());
        assert_eq!(a[i].limit(), b[i].limit());
        assert_eq!(a[i].points(), b[i].points());
    }
}

/// No division waits on a tile all four copies of which it already holds.
#[test]
fn wait_sets_respect_supply() {
    for hand in ["1233334555678s", "1112345666678m", "2344445678999m", "22223333444s55z"] {
        let tiles = tiles_from_string(hand);
        for d in divide(&tiles) {
            let mut held: Vec<Tile> = d.pair.clone();
            for m in &d.melds {
                held.extend(m.iter().cloned());
            }
            held.extend(d.remaining.iter().cloned());
            for w in d.waits() {
                let copies = held.iter().filter(|t| **t == w).count();
                assert!(copies < 4);
            }
        }
    }
}

/// The fu total of a grouped outcome is a multiple of ten, with the round-up
/// entry below ten making up exactly the difference.
#[test]
fn fu_total_is_rounded_up() {
    let results =
        score(&tiles_from_string("123456m12378s11z"), &vec![], &ctw("6s", false, "1z", "3z"));
    assert_eq!(results.len(), 1);
    let reasons = results[0].fu_reasons();
    let total: u32 = reasons.iter().map(|(_, v)| *v as u32).sum();
    assert_eq!(total % 10, 0);
    let raw: u32 = reasons
        .iter()
        .filter(|(r, _)| *r != FuReason::RoundUp)
        .map(|(_, v)| *v as u32)
        .sum();
    let round_up: u32 = reasons
        .iter()
        .filter(|(r, _)| *r == FuReason::RoundUp)
        .map(|(_, v)| *v as u32)
        .sum();
    assert!(round_up < 10);
    assert_eq!(total, raw + round_up);
    assert_eq!(results[0].fu() as u32, total);
}

/// A doubled double-run supersedes the single double-run: the lesser pattern
/// never appears beside the greater one.
#[test]
fn superseded_pattern_is_dropped() {
    let results =
        score(&tiles_from_string("22m223344p11233s"), &vec![], &ctw("2s", false, "1z", "3z"));
    let mut saw_ryanpeikou = false;
    for r in &results {
        let reasons: Vec<HanReason> = r.han_reasons().iter().map(|(y, _)| *y).collect();
        if reasons.contains(&HanReason::Yaku(Yaku::Ryanpeikou)) {
            saw_ryanpeikou = true;
            assert!(!reasons.contains(&HanReason::Yaku(Yaku::Iipeikou)));
        }
    }
    assert!(saw_ryanpeikou);
}

/// A full flush supersedes the half flush on the same hand.
#[test]
fn full_flush_supersedes_half_flush() {
    let results =
        score(&tiles_from_string("1234566677889m"), &vec![], &ctw("9m", false, "1z", "3z"));
    assert!(results.len() >= 1);
    for r in &results {
        let reasons: Vec<HanReason> = r.han_reasons().iter().map(|(y, _)| *y).collect();
        assert!(reasons.contains(&HanReason::Yaku(Yaku::Chinitsu)));
        assert!(!reasons.contains(&HanReason::Yaku(Yaku::Honitsu)));
    }
}

/// The all-pairs shape is never produced once a call is exposed.
#[test]
fn all_pairs_needs_a_closed_hand() {
    // Seven pairs concealed: the all-pairs outcome appears.
    let closed =
        score(&tiles_from_string("11334m55p22s3355z"), &vec![], &ctw("4m", true, "1z", "3z"));
    assert!(closed.iter().any(|r| r.fu_reasons() == vec![(FuReason::Chiitoitsu, 25)]));

    // The same pair-heavy shape with a call exposed: no all-pairs outcome.
    let open = score(
        &tiles_from_string("1133m55p2233z"),
        &vec![Call::pon(tile_from_string("9s"))],
        &ctw("4m", true, "1z", "3z"),
    );
    assert!(open.iter().all(|r| r.fu_reasons() != vec![(FuReason::Chiitoitsu, 25)]));
}

/// A hand with no qualifying decomposition and no special shape yields the
/// empty list, not an error.
#[test]
fn no_win_yields_empty_list() {
    let results =
        score(&tiles_from_string("159m159p159s1234z"), &vec![], &ctw("5z", true, "1z", "3z"));
    assert_eq!(results.len(), 0);
}

/// The notation round-trips through parsing and formatting.
#[test]
fn notation_round_trip() {
    for s in ["123456789m123456789p123456789s1234567z", "12m34p56s17z", "1z", "55m"] {
        assert_eq!(toitoi::tile::tiles_to_string(&tiles_from_string(s)), s);
    }
}

/// The biggest legal concealed hand still enumerates and scores.
#[test]
fn fourteen_tile_hand_scores() {
    let results =
        score(&tiles_from_string("1112345678999m"), &vec![], &ctw("9m", true, "1z", "3z"));
    assert!(results.len() >= 1);
}
