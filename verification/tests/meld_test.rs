//! Tests for meld predicates and the candidate-meld universe.

use toitoi::meld::all_sequences;
use toitoi::meld::all_triplets;
use toitoi::meld::no_open_calls;
use toitoi::meld::possible_sequences;
use toitoi::meld::possible_triplets;
use toitoi::tile::tile_from_string;
use toitoi::tile::tiles_from_string;
use toitoi::types::Call;
use toitoi::types::CallType;

#[test]
fn test_all_sequences() {
    assert_eq!(all_sequences().len(), 21);
}

#[test]
fn test_all_triplets() {
    assert_eq!(all_triplets().len(), 34);
}

#[test]
fn test_possible_melds() {
    let tiles = tiles_from_string("123466777999m");
    assert_eq!(
        possible_sequences(&tiles),
        [tiles_from_string("123m"), tiles_from_string("234m")]
    );
    assert_eq!(
        possible_triplets(&tiles),
        [tiles_from_string("777m"), tiles_from_string("999m")]
    );
}

#[test]
fn test_no_open_calls() {
    assert!(!no_open_calls(&vec![
        Call { ctype: CallType::Minkan, tile: tile_from_string("1m") },
        Call { ctype: CallType::Ankan, tile: tile_from_string("2p") }
    ]));
    assert!(no_open_calls(&vec![Call {
        ctype: CallType::Ankan,
        tile: tile_from_string("3s")
    }]));
}
