//! Tests for the division enumerator and its wait sets.

use toitoi::division::combis_with_rep;
use toitoi::division::divide;
use toitoi::division::Division;
use toitoi::tile::tiles_from_string;
use toitoi::tile::Tile;

fn d(pair: &str, melds: &[&str], remaining: &str) -> Division {
    Division {
        pair: tiles_from_string(pair),
        melds: melds.into_iter().map(|m| tiles_from_string(m)).collect(),
        remaining: tiles_from_string(remaining),
    }
}

fn _test_waits(tiles_str: &str, expected_waits_str: &str) {
    let mut waits: Vec<Tile> =
        divide(&tiles_from_string(tiles_str)).iter().flat_map(|d| d.waits()).collect();
    waits.sort();
    waits.dedup();

    assert_eq!(waits, tiles_from_string(expected_waits_str));
}

#[test]
fn test_divide_nocalls() {
    assert_eq!(
        divide(&tiles_from_string("4555m123789s333z")),
        vec![
            d("", &["555m", "123s", "789s", "333z"], "4m"),
            d("55m", &["123s", "789s", "333z"], "45m"),
            d("33z", &["555m", "123s", "789s"], "4m3z"),
        ]
    );
}

#[test]
fn test_divide_nocalls_5sidedwait() {
    assert_eq!(
        divide(&tiles_from_string("1114444555566m")),
        vec![
            d("", &["111m", "444m", "456m", "555m"], "6m"),
            d("11m", &["444m", "456m", "555m"], "16m"),
            d("44m", &["111m", "456m", "555m"], "46m"),
            d("44m", &["111m", "456m", "456m"], "55m"),
            d("55m", &["111m", "444m", "456m"], "56m"),
            d("55m", &["111m", "456m", "456m"], "44m"),
            d("66m", &["111m", "444m", "555m"], "45m")
        ]
    );
}

#[test]
fn test_waits_1sided() {
    // A closed-gap wait.
    _test_waits("234m13999p567s11z", "2p");
}

#[test]
fn test_waits_2sided() {
    _test_waits("1234m123789s333z", "14m");

    _test_waits("3555m123456789s", "34m");
    _test_waits("222p123s111555z4p", "34p");
}

#[test]
fn test_waits_3sided() {
    _test_waits("4555m123789s333z", "346m");
    _test_waits("4555m123456789s", "346m");

    _test_waits("23456m11p123456s", "147m");
    _test_waits("1234567m123456s", "147m");

    _test_waits("3335777s111222z", "456s");

    _test_waits("22223333444s55z", "14s5z");
}

#[test]
fn test_waits_4sided() {
    _test_waits("1222234456678s", "1347s");
    _test_waits("1123333445566p", "1247p");
    _test_waits("2333445556777m", "1345m");
    _test_waits("44456s66678p111z", "69p47s");
    _test_waits("7788999s123456p", "6789s");
}

#[test]
fn test_waits_5sided() {
    _test_waits("4445678m456789s", "35689m");

    _test_waits("3334555s111222z", "23456s");
}

#[test]
fn test_waits_6sided() {
    // The third bamboo is no wait: all four copies are already in the hand.
    _test_waits("1233334555678s", "124569s");
}

#[test]
fn test_waits_8sided() {
    _test_waits("1113334567888m", "23456789m");
    _test_waits("2223456777s111z", "12345678s");

    // The sixth rank is no wait: all four copies are already in the hand.
    _test_waits("1112345666678m", "12345789m");
    // The fourth rank is no wait: all four copies are already in the hand.
    _test_waits("2344445678999m", "12356789m");
}

#[test]
fn test_waits_iipeikou() {
    _test_waits("22334455s11122z", "25s2z");
    _test_waits("2233445566s123p", "2356s");
}

#[test]
fn test_combis_with_rep() {
    let melds = vec![
        tiles_from_string("123m"),
        tiles_from_string("456m"),
        tiles_from_string("789m"),
        tiles_from_string("123p"),
        tiles_from_string("456p"),
        tiles_from_string("789p"),
        tiles_from_string("123s"),
        tiles_from_string("456s"),
        tiles_from_string("789s"),
    ];
    assert_eq!(combis_with_rep(3, &melds).len(), 165);
}
