//! Tests for player bookkeeping.

use toitoi::player::Player;
use toitoi::tile::tile_from_string;
use toitoi::tile::tiles_from_string;
use toitoi::types::Call;
use toitoi::types::CallType;

#[test]
fn test_call_chi() {
    let mut player = Player { hand: tiles_from_string("12345m"), ..Default::default() };
    player.call(CallType::Chi, tile_from_string("3m"), vec![1, 3]);
    assert_eq!(player.hand, tiles_from_string("135m"));
    assert_eq!(player.calls, vec![Call { ctype: CallType::Chi, tile: tile_from_string("2m") }]);
}

#[test]
fn test_call_pon() {
    let mut player = Player { hand: tiles_from_string("12334m"), ..Default::default() };
    player.call(CallType::Pon, tile_from_string("3m"), vec![2, 3]);
    assert_eq!(player.hand, tiles_from_string("124m"));
    assert_eq!(player.calls, vec![Call { ctype: CallType::Pon, tile: tile_from_string("3m") }]);
}
