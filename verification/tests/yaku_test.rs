//! Tests for the named-pattern predicates, each evaluated against the
//! divisions of a concrete hand.

use toitoi::division::divide;
use toitoi::division::Division;
use toitoi::tile::tile_from_string;
use toitoi::tile::tiles_from_string;
use toitoi::tile::Tile;
use toitoi::types::Call;
use toitoi::types::CallType;
use toitoi::types::HandContext;
use toitoi::yaku::has_chankan;
use toitoi::yaku::has_chanta;
use toitoi::yaku::has_chiihou;
use toitoi::yaku::has_chiitoi;
use toitoi::yaku::has_chinitsu;
use toitoi::yaku::has_chinroutou;
use toitoi::yaku::has_chun;
use toitoi::yaku::has_chuuren;
use toitoi::yaku::has_daisangen;
use toitoi::yaku::has_daisuushii;
use toitoi::yaku::has_haitei;
use toitoi::yaku::has_haku;
use toitoi::yaku::has_hatsu;
use toitoi::yaku::has_honitsu;
use toitoi::yaku::has_honroutou;
use toitoi::yaku::has_houtei;
use toitoi::yaku::has_iipeikou;
use toitoi::yaku::has_ittsu;
use toitoi::yaku::has_junchan;
use toitoi::yaku::has_kokushi;
use toitoi::yaku::has_menzen_tsumo;
use toitoi::yaku::has_nan;
use toitoi::yaku::has_pei;
use toitoi::yaku::has_riichi;
use toitoi::yaku::has_rinshan;
use toitoi::yaku::has_ryanpeikou;
use toitoi::yaku::has_ryuuiisou;
use toitoi::yaku::has_sanankou;
use toitoi::yaku::has_sankantsu;
use toitoi::yaku::has_sanshoku_doujun;
use toitoi::yaku::has_sanshoku_doukou;
use toitoi::yaku::has_sha;
use toitoi::yaku::has_shousangen;
use toitoi::yaku::has_shousuushii;
use toitoi::yaku::has_suuankou;
use toitoi::yaku::has_suukantsu;
use toitoi::yaku::has_tanyao;
use toitoi::yaku::has_tenhou;
use toitoi::yaku::has_toitoi;
use toitoi::yaku::has_ton;
use toitoi::yaku::has_tsuuiisou;

type CheckFunc = fn(&Division, &Vec<Call>, &HandContext) -> bool;

fn assert_any_division(
    func: CheckFunc, tiles: &Vec<Tile>, calls: &Vec<Call>, context: &HandContext,
) {
    let divisions = make_divisions(tiles, context);
    // Make sure we have a division at all to avoid false positives
    assert!(divisions.len() >= 1);
    assert!(divisions.iter().any(|d| func(d, calls, context)))
}

fn refute_all_divisions(
    func: CheckFunc, tiles: &Vec<Tile>, calls: &Vec<Call>, context: &HandContext,
) {
    let divisions = make_divisions(tiles, context);
    // Make sure we have a division at all to avoid false negatives
    assert!(divisions.len() >= 1);
    assert!(divisions.iter().all(|d| !func(d, calls, context)))
}

fn make_divisions(tiles: &Vec<Tile>, context: &HandContext) -> Vec<Division> {
    let mut all_tiles = tiles.clone();
    all_tiles.push(context.winning_tile.clone());
    divide(&all_tiles)
}

fn c(call_type: &str, tile: &str) -> Call {
    Call {
        ctype: match call_type {
            "p" => CallType::Pon,
            "c" => CallType::Chi,
            "ok" => CallType::Minkan,
            "ck" => CallType::Ankan,
            _ => panic!("Invalid call type"),
        },
        tile: tile_from_string(tile),
    }
}

fn ct(winning_tile: &str, is_tsumo: bool) -> HandContext {
    HandContext { winning_tile: tile_from_string(winning_tile), is_tsumo, ..Default::default() }
}

fn ctw(winning_tile: &str, is_tsumo: bool, round_wind: &str, player_wind: &str) -> HandContext {
    HandContext {
        winning_tile: tile_from_string(winning_tile),
        is_tsumo,
        round_wind: tile_from_string(round_wind),
        player_wind: tile_from_string(player_wind),
        ..Default::default()
    }
}

#[test]
fn menzen_tsumo() {
    let tiles = tiles_from_string("234456m66p12344s");
    let calls = vec![];

    // Closed, tsumo
    assert_any_division(has_menzen_tsumo, &tiles, &calls, &ctw("4s", true, "1z", "1z"));
    // Closed, ron
    refute_all_divisions(has_menzen_tsumo, &tiles, &calls, &ctw("4s", false, "1z", "1z"));

    let tiles_open = tiles_from_string("234m66p12344s");
    let calls_open = vec![c("c", "4m")];

    // Open, tsumo
    refute_all_divisions(has_menzen_tsumo, &tiles_open, &calls_open, &ctw("4s", true, "1z", "1z"));
    // Open, false
    refute_all_divisions(has_menzen_tsumo, &tiles_open, &calls_open, &ctw("4s", false, "1z", "1z"));
}

#[test]
fn iipeikou() {
    let tiles = tiles_from_string("45566p22789s111z");
    let calls = vec![];

    assert_any_division(has_iipeikou, &tiles, &calls, &ctw("4p", true, "1z", "1z"));
    refute_all_divisions(has_iipeikou, &tiles, &calls, &ctw("7p", true, "1z", "1z"));
}

#[test]
fn tanyao() {
    let tiles = tiles_from_string("23456m22p234567s");
    let calls = vec![];

    assert_any_division(has_tanyao, &tiles, &calls, &ctw("7m", true, "1z", "1z"));
    refute_all_divisions(has_tanyao, &tiles, &calls, &ctw("1m", true, "1z", "1z"));
}

#[test]
fn ton() {
    let tiles = tiles_from_string("56m22p234567s111z");
    let calls = vec![];

    // Round wind
    assert_any_division(has_ton, &tiles, &calls, &ctw("7m", true, "1z", "2z"));
    // Player wind
    assert_any_division(has_ton, &tiles, &calls, &ctw("7m", true, "2z", "1z"));
    // Guest wind
    refute_all_divisions(has_ton, &tiles, &calls, &ctw("7m", true, "2z", "2z"));
}

#[test]
fn nan() {
    let tiles = tiles_from_string("56m22p234567s");
    let calls = vec![c("p", "2z")];

    // Round wind
    assert_any_division(has_nan, &tiles, &calls, &ctw("7m", true, "2z", "1z"));
    // Player wind
    assert_any_division(has_nan, &tiles, &calls, &ctw("7m", true, "1z", "2z"));
    // Guest wind
    refute_all_divisions(has_nan, &tiles, &calls, &ctw("7m", true, "1z", "1z"));
}

#[test]
fn sha() {
    let tiles = tiles_from_string("56m22p234567s333z");
    let calls = vec![];

    // Round wind
    assert_any_division(has_sha, &tiles, &calls, &ctw("7m", true, "3z", "1z"));
    // Player wind
    assert_any_division(has_sha, &tiles, &calls, &ctw("7m", true, "1z", "3z"));
    // Guest wind
    refute_all_divisions(has_sha, &tiles, &calls, &ctw("7m", true, "1z", "2z"));
}

#[test]
fn pei() {
    let tiles = tiles_from_string("56m22p234567s");
    let calls = vec![c("ck", "4z")];

    // Round wind
    assert_any_division(has_pei, &tiles, &calls, &ctw("7m", true, "4z", "1z"));
    // Player wind
    assert_any_division(has_pei, &tiles, &calls, &ctw("7m", true, "1z", "4z"));
    // Guest wind
    refute_all_divisions(has_pei, &tiles, &calls, &ctw("7m", true, "2z", "3z"));
}

#[test]
fn haku() {
    let tiles = tiles_from_string("56m22p234567s55z");
    let calls = vec![];

    assert_any_division(has_haku, &tiles, &calls, &ct("5z", true));
    refute_all_divisions(has_haku, &tiles, &calls, &ct("2p", true));
}

#[test]
fn hatsu() {
    let tiles = tiles_from_string("56m22p234567s66z");
    let calls = vec![];

    assert_any_division(has_hatsu, &tiles, &calls, &ct("6z", true));
    refute_all_divisions(has_hatsu, &tiles, &calls, &ct("2p", true));
}

#[test]
fn chun() {
    let tiles = tiles_from_string("56m22p234567s77z");
    let calls = vec![];

    assert_any_division(has_chun, &tiles, &calls, &ct("7z", true));
    refute_all_divisions(has_chun, &tiles, &calls, &ct("2p", true));
}

#[test]
fn chanta() {
    let tiles = tiles_from_string("12378m123s22333z");
    let calls = vec![];

    assert_any_division(has_chanta, &tiles, &calls, &ct("9m", true));
    refute_all_divisions(has_chanta, &tiles, &calls, &ct("6m", true));
}

#[test]
fn sanshoku_doujun() {
    let tiles = tiles_from_string("123m2345677p123s");
    let calls = vec![];

    assert_any_division(has_sanshoku_doujun, &tiles, &calls, &ct("1p", true));
    refute_all_divisions(has_sanshoku_doujun, &tiles, &calls, &ct("4p", true));
}

#[test]
fn sanshoku_doukou() {
    let tiles = tiles_from_string("111m1145677p111s");
    let calls = vec![];

    assert_any_division(has_sanshoku_doukou, &tiles, &calls, &ct("1p", true));
    refute_all_divisions(has_sanshoku_doukou, &tiles, &calls, &ct("7p", true));
}

#[test]
fn ittsu() {
    let tiles = tiles_from_string("12345678m123s22z");
    let calls = vec![];

    assert_any_division(has_ittsu, &tiles, &calls, &ct("9m", true));
    refute_all_divisions(has_ittsu, &tiles, &calls, &ct("6m", true));
}

#[test]
fn toitoi() {
    assert_any_division(
        has_toitoi,
        &tiles_from_string("44555p11s"),
        &vec![c("p", "3m"), c("p", "3s")],
        &ct("1s", true),
    );
    refute_all_divisions(
        has_toitoi,
        &tiles_from_string("44567p11s"),
        &vec![c("p", "3m"), c("p", "3s")],
        &ct("1s", true),
    );

    // With three concealed triplets as well
    assert_any_division(
        has_toitoi,
        &tiles_from_string("44555p11333s"),
        &vec![c("p", "3m")],
        &ct("1s", true),
    );
}

#[test]
fn sanankou() {
    assert_any_division(
        has_sanankou,
        &tiles_from_string("333m4455p111s"),
        &vec![c("p", "5s")],
        &ct("5p", true),
    );
    refute_all_divisions(
        has_sanankou,
        &tiles_from_string("333m4455p"),
        &vec![c("p", "1s"), c("p", "5s")],
        &ct("5p", true),
    );
}

#[test]
fn sankantsu() {
    assert_any_division(
        has_sankantsu,
        &tiles_from_string("12m44p"),
        &vec![c("ok", "6p"), c("ck", "1s"), c("ok", "3s")],
        &ct("3m", true),
    );
    refute_all_divisions(
        has_sankantsu,
        &tiles_from_string("12m44p"),
        &vec![c("p", "6p"), c("ck", "1s"), c("ok", "3s")],
        &ct("3m", true),
    );
}

#[test]
fn chiitoi() {
    // Special case: check the division directly
    assert!(has_chiitoi(
        &Division {
            pair: vec![],
            melds: vec![],
            remaining: tiles_from_string("113344m55p22s3355z")
        },
        &vec![],
        &ct("4m", true)
    ));
}

#[test]
fn honroutou() {
    assert_any_division(
        has_honroutou,
        &tiles_from_string("11199m111s22333z"),
        &vec![],
        &ct("9m", true),
    );
}

#[test]
fn shousangen() {
    assert_any_division(
        has_shousangen,
        &tiles_from_string("345mm33s55666777z"),
        &vec![],
        &ct("3s", true),
    );
}

#[test]
fn honitsu() {
    assert_any_division(
        has_honitsu,
        &tiles_from_string("123456789m1122z"),
        &vec![],
        &ct("1z", true),
    );
    refute_all_divisions(
        has_honitsu,
        &tiles_from_string("456789m123p1122z"),
        &vec![],
        &ct("1z", true),
    );
}

#[test]
fn junchan() {
    let tiles = tiles_from_string("123789m789p2399s");
    let calls = vec![];

    assert_any_division(has_junchan, &tiles, &calls, &ct("1s", true));
    refute_all_divisions(has_junchan, &tiles, &calls, &ct("4s", true));

    refute_all_divisions(
        has_junchan,
        &tiles_from_string("111999m111s2233z"),
        &calls,
        &ct("3z", true),
    );
}

#[test]
fn ryanpeikou() {
    assert_any_division(
        has_ryanpeikou,
        &tiles_from_string("22m223344p11233s"),
        &vec![],
        &ct("2s", true),
    );
    assert_any_division(
        has_ryanpeikou,
        &tiles_from_string("22m11122223333s"),
        &vec![],
        &ct("1s", true),
    );
    refute_all_divisions(
        has_ryanpeikou,
        &tiles_from_string("123m2344p112233s"),
        &vec![],
        &ct("4p", true),
    );
}

#[test]
fn chinitsu() {
    assert_any_division(
        has_chinitsu,
        &tiles_from_string("1234566677889m"),
        &vec![],
        &ct("9m", true),
    );
}

#[test]
fn tenhou() {
    let tiles = tiles_from_string("234456m66p12344s");
    let calls = vec![];
    let mut context = ctw("4s", true, "1z", "1z");
    context.is_tenhou = true;

    assert_any_division(has_tenhou, &tiles, &calls, &context);
}

#[test]
fn chiihou() {
    let tiles = tiles_from_string("234456m66p12344s");
    let calls = vec![];
    let mut context = ctw("4s", true, "1z", "1z");
    context.is_chiihou = true;

    assert_any_division(has_chiihou, &tiles, &calls, &context);
}

#[test]
fn kokushi() {
    // Special case: check the division directly
    assert!(has_kokushi(
        &Division {
            pair: vec![],
            melds: vec![],
            remaining: tiles_from_string("19m19p19s12345667z")
        },
        &vec![],
        &ct("9m", true)
    ));
    assert!(!has_kokushi(
        &Division {
            pair: vec![],
            melds: vec![],
            remaining: tiles_from_string("1m199p19s12345667z")
        },
        &vec![],
        &ct("9p", true)
    ));
}

#[test]
fn suuankou() {
    assert_any_division(
        has_suuankou,
        &tiles_from_string("333m4455p111555s"),
        &vec![],
        &ct("5p", true),
    );
}

#[test]
fn daisangen() {
    assert_any_division(
        has_daisangen,
        &tiles_from_string("345m2s555666777z"),
        &vec![],
        &ct("2s", true),
    );
    refute_all_divisions(
        has_daisangen,
        &tiles_from_string("345m2s444666777z"),
        &vec![],
        &ct("2s", true),
    );
    refute_all_divisions(
        has_daisangen,
        &tiles_from_string("345m22s55566677z"),
        &vec![],
        &ct("2s", true),
    );
}

#[test]
fn shousuushii() {
    assert_any_division(
        has_shousuushii,
        &tiles_from_string("888m1222z"),
        &vec![c("p", "3z"), c("p", "4z")],
        &ct("1z", true),
    );
}

#[test]
fn daisuushii() {
    assert_any_division(
        has_daisuushii,
        &tiles_from_string("5p111222444z"),
        &vec![c("p", "3z")],
        &ct("5p", true),
    );
}

#[test]
fn tsuuiisou() {
    assert_any_division(
        has_tsuuiisou,
        &tiles_from_string("1113344z"),
        &vec![c("p", "2z"), c("p", "6z")],
        &ct("3z", true),
    );
}

#[test]
fn chinroutou() {
    assert_any_division(
        has_chinroutou,
        &tiles_from_string("11199m111999p11s"),
        &vec![],
        &ct("9m", true),
    );
}

#[test]
fn ryuuiisou() {
    assert_any_division(
        has_ryuuiisou,
        &tiles_from_string("22334466688s66z"),
        &vec![],
        &ct("6z", true),
    );
}

#[test]
fn chuuren() {
    let tiles = tiles_from_string("1112345678999m");
    assert_any_division(has_chuuren, &tiles, &vec![], &ct("1m", true));
    assert_any_division(has_chuuren, &tiles, &vec![], &ct("5m", true));
    assert_any_division(has_chuuren, &tiles, &vec![], &ct("9m", true));
}

#[test]
fn suukantsu() {
    assert_any_division(
        has_suukantsu,
        &tiles_from_string("4z"),
        &vec![c("ok", "9p"), c("ck", "2m"), c("ck", "7z"), c("ok", "4s")],
        &ct("4z", true),
    );
}

#[test]
fn contextual_flags() {
    let tiles = tiles_from_string("234456m66p12344s");
    let calls = vec![];

    let mut context = ctw("4s", false, "1z", "1z");
    context.is_riichi = true;
    assert_any_division(has_riichi, &tiles, &calls, &context);

    let mut context = ctw("4s", false, "1z", "1z");
    context.is_haitei = true;
    assert_any_division(has_haitei, &tiles, &calls, &context);

    let mut context = ctw("4s", false, "1z", "1z");
    context.is_houtei = true;
    assert_any_division(has_houtei, &tiles, &calls, &context);

    let mut context = ctw("4s", false, "1z", "1z");
    context.is_rinshan = true;
    assert_any_division(has_rinshan, &tiles, &calls, &context);

    let mut context = ctw("4s", false, "1z", "1z");
    context.is_chankan = true;
    assert_any_division(has_chankan, &tiles, &calls, &context);
}
