//! Tests for the tile type and tile-list helpers.

use std::cmp::Ordering;
use toitoi::tile::all_tiles;
use toitoi::tile::tile_from_string;
use toitoi::tile::tiles_from_string;
use toitoi::tile::tiles_to_string;
use toitoi::tile::with_tiles_removed;
use toitoi::tile::Suit;
use toitoi::tile::Tile;

fn t(tile: &str) -> Tile {
    tile_from_string(tile)
}

fn ts(tiles: &str) -> Vec<Tile> {
    tiles_from_string(tiles)
}

#[test]
fn test_tile_from_string() {
    assert_eq!(tile_from_string("1m"), Tile { suit: Suit::Man, number: 1 });
    assert_eq!(tile_from_string("2p"), Tile { suit: Suit::Pin, number: 2 });
    assert_eq!(tile_from_string("9s"), Tile { suit: Suit::Sou, number: 9 });
    assert_eq!(tile_from_string("4z"), Tile { suit: Suit::Hon, number: 4 });
    assert_eq!(tile_from_string("5z"), Tile { suit: Suit::Hon, number: 5 });
}

#[test]
fn test_tiles_from_string() {
    assert_eq!(
        tiles_from_string("123456789m123456789p123456789s1234567z"),
        all_tiles().to_vec()
    );
    assert_eq!(
        tiles_from_string("5p5z"),
        [Tile { suit: Suit::Pin, number: 5 }, Tile { suit: Suit::Hon, number: 5 }]
    );
}

#[test]
fn test_tiles_to_string() {
    assert_eq!(tiles_to_string(&all_tiles()), "123456789m123456789p123456789s1234567z",);
    assert_eq!(
        tiles_to_string(&vec![
            t("1m"),
            t("2m"),
            t("3p"),
            t("4p"),
            t("5s"),
            t("6s"),
            t("1z"),
            t("7z")
        ]),
        "12m34p56s17z"
    );
}

#[test]
fn test_tile_ordering() {
    assert_eq!(t("1m").cmp(&t("1m")), Ordering::Equal);
    assert_eq!(t("7z").cmp(&t("7z")), Ordering::Equal);
    assert_eq!(t("1m").cmp(&t("2m")), Ordering::Less);
    assert_eq!(t("2m").cmp(&t("1p")), Ordering::Less);
    assert_eq!(t("1z").cmp(&t("9s")), Ordering::Greater);
    assert_eq!(t("5z").cmp(&t("4z")), Ordering::Greater);
}

#[test]
fn test_tile_next() {
    assert_eq!(t("1m").next(), t("2m"));
    assert_eq!(t("3p").next(), t("4p"));
    assert_eq!(t("5s").next(), t("6s"));
    assert_eq!(t("1z").next(), t("2z"));
    assert_eq!(t("6z").next(), t("7z"));
}

#[test]
fn test_tile_prev() {
    assert_eq!(t("9m").prev(), t("8m"));
    assert_eq!(t("7p").prev(), t("6p"));
    assert_eq!(t("5s").prev(), t("4s"));
    assert_eq!(t("4z").prev(), t("3z"));
    assert_eq!(t("6z").prev(), t("5z"));
}

#[test]
fn test_with_tiles_removed() {
    assert_eq!(with_tiles_removed(&ts("1m22p3s446z"), &ts("1m2p3s4z"),), ts("2p46z"),);
}
