//! The library's laws: properties of the whole pipeline, stated over the
//! same specification model that the executable functions' contracts use,
//! and proved once and for all.

use crate::calculation::calc_le_fn;
use crate::calculation::spec_calculate;
use crate::calculation::spec_check_chiitoi;
use crate::calculation::spec_check_kokushi;
use crate::calculation::spec_qualifying_results;
use crate::calculation::CalcResultV;
use crate::division::div_tiles;
use crate::division::filter_drawable;
use crate::division::raw_waits;
use crate::division::spec_divide;
use crate::division::spec_waits;
use crate::division::DivisionV;
use crate::fu::fu_reasons_spec;
use crate::fu::fu_sum;
use crate::fu::fu_total;
use crate::fu::lemma_fu_sum_nonneg;
use crate::fu::lemma_fu_total_push;
use crate::fu::lemma_fu_total_tagged;
use crate::fu::round_up_ten;
use crate::fu::spec_fu_for_division;
use crate::tile::count_of;
use crate::tile::lemma_ins_sorted_len;
use crate::tile::Tile;
use crate::types::Call;
use crate::types::FuReason;
use crate::types::HandContextV;
use crate::types::Yaku;
use crate::types::Yakuman;
use crate::yaku::kokushi_tiles_spec;
use crate::yaku::lemma_kokushi_all_kok;
use crate::yaku::spec_has_chiitoi;
use crate::yaku::spec_has_kokushi;
use crate::yaku::spec_is_kokushi_tile;
use crate::yaku::spec_yaku_filter;
use crate::yaku::spec_yaku_in_hand;
use crate::yaku::spec_yaku_matches;
use crate::yaku::spec_yaku_superceded;
use crate::yaku::spec_yaku_supercedes;
use crate::yaku::spec_yakuman_filter;
use crate::yaku::spec_yakuman_in_hand;
use crate::yaku::spec_yakuman_matches;
use crate::yaku::spec_yakuman_superceded;
use crate::yaku::spec_yakuman_supercedes;
use crate::yaku::yaku_to_check_spec;
use crate::yaku::yakuman_to_check_spec;
use vstd::prelude::*;

verus! {

/// Determinism: for fixed tiles, calls and context the evaluation has one
/// mathematical value, so any two result lists that meet `calculate`'s
/// contract are the same ordered list.
pub proof fn lemma_evaluate_deterministic(
    a: Seq<CalcResultV>,
    b: Seq<CalcResultV>,
    tiles: Seq<Tile>,
    calls: Seq<Call>,
    ctx: HandContextV,
)
    requires
        a == spec_calculate(tiles, calls, ctx),
        b == spec_calculate(tiles, calls, ctx),
    ensures
        a == b,
{
}

/// Wait-set soundness: a division's wait set never contains a tile all four
/// copies of which the division's own tiles already hold.
pub proof fn lemma_wait_set_sound(d: DivisionV, t: Tile)
    requires
        spec_waits(d).contains(t),
    ensures
        count_of(div_tiles(d), t) < 4,
{
    lemma_filter_drawable_sound(raw_waits(d), div_tiles(d));
    let k = choose|k: int| 0 <= k < spec_waits(d).len() && spec_waits(d)[k] == t;
}

proof fn lemma_filter_drawable_sound(ws: Seq<Tile>, tiles: Seq<Tile>)
    ensures
        forall|k: int|
            0 <= k < filter_drawable(ws, tiles).len() ==> count_of(
                tiles,
                #[trigger] filter_drawable(ws, tiles)[k],
            ) < 4,
    decreases ws.len(),
{
    if ws.len() > 0 {
        lemma_filter_drawable_sound(ws.drop_last(), tiles);
        let rest = filter_drawable(ws.drop_last(), tiles);
        let r = filter_drawable(ws, tiles);
        assert forall|k: int| 0 <= k < r.len() implies count_of(tiles, #[trigger] r[k]) < 4 by {
            if count_of(tiles, ws.last()) < 4 {
                if k < rest.len() {
                    assert(r[k] == rest[k]);
                } else {
                    assert(r[k] == ws.last());
                }
            } else {
                assert(r[k] == rest[k]);
            }
        }
    }
}

/// Fu rounding: the tagged total of any non-special-shape outcome is its raw
/// reason total raised to the next multiple of ten, strictly raised exactly
/// when the raw total is not already a multiple of ten.
pub proof fn lemma_fu_rounding(d: DivisionV, calls: Seq<Call>, ctx: HandContextV)
    ensures
        fu_total(spec_fu_for_division(d, calls, ctx)) == round_up_ten(
            fu_sum(fu_reasons_spec(d, calls, ctx)),
        ),
        fu_total(spec_fu_for_division(d, calls, ctx)) % 10 == 0,
        fu_sum(fu_reasons_spec(d, calls, ctx)) <= fu_total(spec_fu_for_division(d, calls, ctx))
            < fu_sum(fu_reasons_spec(d, calls, ctx)) + 10,
        fu_sum(fu_reasons_spec(d, calls, ctx)) % 10 == 0 <==> fu_total(
            spec_fu_for_division(d, calls, ctx),
        ) == fu_sum(fu_reasons_spec(d, calls, ctx)),
{
    let rs = fu_reasons_spec(d, calls, ctx);
    let tagged = Seq::new(rs.len(), |i: int| (rs[i], crate::fu::fu_value(rs[i])));
    lemma_fu_total_tagged(rs);
    lemma_fu_sum_nonneg(rs);
    if fu_sum(rs) % 10 != 0 {
        lemma_fu_total_push(tagged, (FuReason::RoundUp, (10 - fu_sum(rs) % 10) as u8));
    }
}

/// Supersession for yaku: when pattern `a` matches and supersedes pattern
/// `b`, `b` never appears in the final list, whether or not it matched.
pub proof fn lemma_yaku_supersession(
    d: DivisionV,
    calls: Seq<Call>,
    ctx: HandContextV,
    a: Yaku,
    b: Yaku,
)
    requires
        spec_yaku_matches(yaku_to_check_spec(), d, calls, ctx).contains(a),
        spec_yaku_supercedes(a).contains(b),
    ensures
        !spec_yaku_in_hand(d, calls, ctx).contains(b),
{
    let found = spec_yaku_matches(yaku_to_check_spec(), d, calls, ctx);
    let i = choose|i: int| 0 <= i < found.len() && found[i] == a;
    lemma_yaku_superceded_covers(found, i, b);
    lemma_yaku_filter_excludes(found, spec_yaku_superceded(found));
    if spec_yaku_in_hand(d, calls, ctx).contains(b) {
        let k = choose|k: int|
            0 <= k < spec_yaku_filter(found, spec_yaku_superceded(found)).len()
                && spec_yaku_filter(found, spec_yaku_superceded(found))[k] == b;
    }
}

proof fn lemma_yaku_superceded_covers(found: Seq<Yaku>, i: int, b: Yaku)
    requires
        0 <= i < found.len(),
        spec_yaku_supercedes(found[i]).contains(b),
    ensures
        spec_yaku_superceded(found).contains(b),
    decreases found.len(),
{
    let sup = spec_yaku_superceded(found.drop_last()) + spec_yaku_supercedes(found.last());
    if i == found.len() - 1 {
        let k = choose|k: int|
            0 <= k < spec_yaku_supercedes(found.last()).len() && spec_yaku_supercedes(
                found.last(),
            )[k] == b;
        assert(sup[spec_yaku_superceded(found.drop_last()).len() + k] == b);
    } else {
        lemma_yaku_superceded_covers(found.drop_last(), i, b);
        let k = choose|k: int|
            0 <= k < spec_yaku_superceded(found.drop_last()).len() && spec_yaku_superceded(
                found.drop_last(),
            )[k] == b;
        assert(sup[k] == b);
    }
}

proof fn lemma_yaku_filter_excludes(found: Seq<Yaku>, sup: Seq<Yaku>)
    ensures
        forall|k: int|
            0 <= k < spec_yaku_filter(found, sup).len() ==> !sup.contains(
                #[trigger] spec_yaku_filter(found, sup)[k],
            ),
    decreases found.len(),
{
    if found.len() > 0 {
        lemma_yaku_filter_excludes(found.drop_last(), sup);
        let rest = spec_yaku_filter(found.drop_last(), sup);
        let r = spec_yaku_filter(found, sup);
        assert forall|k: int| 0 <= k < r.len() implies !sup.contains(#[trigger] r[k]) by {
            if !sup.contains(found.last()) {
                if k < rest.len() {
                    assert(r[k] == rest[k]);
                } else {
                    assert(r[k] == found.last());
                }
            } else {
                assert(r[k] == rest[k]);
            }
        }
    }
}

/// Supersession for yakuman: the same exclusivity at the highest tier.
pub proof fn lemma_yakuman_supersession(
    d: DivisionV,
    calls: Seq<Call>,
    ctx: HandContextV,
    a: Yakuman,
    b: Yakuman,
)
    requires
        spec_yakuman_matches(yakuman_to_check_spec(), d, calls, ctx).contains(a),
        spec_yakuman_supercedes(a).contains(b),
    ensures
        !spec_yakuman_in_hand(d, calls, ctx).contains(b),
{
    let found = spec_yakuman_matches(yakuman_to_check_spec(), d, calls, ctx);
    let i = choose|i: int| 0 <= i < found.len() && found[i] == a;
    lemma_yakuman_superceded_covers(found, i, b);
    lemma_yakuman_filter_excludes(found, spec_yakuman_superceded(found));
    if spec_yakuman_in_hand(d, calls, ctx).contains(b) {
        let k = choose|k: int|
            0 <= k < spec_yakuman_filter(found, spec_yakuman_superceded(found)).len()
                && spec_yakuman_filter(found, spec_yakuman_superceded(found))[k] == b;
    }
}

proof fn lemma_yakuman_superceded_covers(found: Seq<Yakuman>, i: int, b: Yakuman)
    requires
        0 <= i < found.len(),
        spec_yakuman_supercedes(found[i]).contains(b),
    ensures
        spec_yakuman_superceded(found).contains(b),
    decreases found.len(),
{
    let sup = spec_yakuman_superceded(found.drop_last()) + spec_yakuman_supercedes(found.last());
    if i == found.len() - 1 {
        let k = choose|k: int|
            0 <= k < spec_yakuman_supercedes(found.last()).len() && spec_yakuman_supercedes(
                found.last(),
            )[k] == b;
        assert(sup[spec_yakuman_superceded(found.drop_last()).len() + k] == b);
    } else {
        lemma_yakuman_superceded_covers(found.drop_last(), i, b);
        let k = choose|k: int|
            0 <= k < spec_yakuman_superceded(found.drop_last()).len() && spec_yakuman_superceded(
                found.drop_last(),
            )[k] == b;
        assert(sup[k] == b);
    }
}

proof fn lemma_yakuman_filter_excludes(found: Seq<Yakuman>, sup: Seq<Yakuman>)
    ensures
        forall|k: int|
            0 <= k < spec_yakuman_filter(found, sup).len() ==> !sup.contains(
                #[trigger] spec_yakuman_filter(found, sup)[k],
            ),
    decreases found.len(),
{
    if found.len() > 0 {
        lemma_yakuman_filter_excludes(found.drop_last(), sup);
        let rest = spec_yakuman_filter(found.drop_last(), sup);
        let r = spec_yakuman_filter(found, sup);
        assert forall|k: int| 0 <= k < r.len() implies !sup.contains(#[trigger] r[k]) by {
            if !sup.contains(found.last()) {
                if k < rest.len() {
                    assert(r[k] == rest[k]);
                } else {
                    assert(r[k] == found.last());
                }
            } else {
                assert(r[k] == rest[k]);
            }
        }
    }
}

/// Special-shape exclusivity: on a hand whose concealed count fits the call
/// count (thirteen tiles less three per call), the all-pairs and the
/// thirteen-distinct shapes are only ever produced with zero calls.
pub proof fn lemma_special_shapes_closed(tiles: Seq<Tile>, calls: Seq<Call>, ctx: HandContextV)
    requires
        tiles.len() + 3 * calls.len() == 13,
    ensures
        spec_check_chiitoi(tiles, calls, ctx) is Some ==> calls.len() == 0,
        spec_check_kokushi(tiles, calls, ctx) is Some ==> calls.len() == 0,
{
    let remaining = tiles.push(ctx.winning_tile);
    let d = DivisionV { pair: Seq::empty(), melds: Seq::empty(), remaining };
    if spec_check_chiitoi(tiles, calls, ctx) is Some {
        assert(spec_has_chiitoi(d));
        assert(remaining.len() == 14);
    }
    if spec_check_kokushi(tiles, calls, ctx) is Some {
        assert(spec_has_kokushi(d));
        lemma_kokushi_needs_thirteen(remaining);
        assert(remaining.len() >= 13);
        assert(3 * calls.len() <= 1);
    }
}

/// A sequence that holds each of the thirteen terminal and honour tiles has
/// at least thirteen members.
proof fn lemma_kokushi_needs_thirteen(s: Seq<Tile>)
    requires
        forall|t: Tile| crate::tile::seq_contains_tile(s, t) <==> spec_is_kokushi_tile(t),
    ensures
        s.len() >= 13,
{
    broadcast use vstd::set::group_set_axioms;

    let ks = kokushi_tiles_spec();
    lemma_kokushi_all_kok();
    lemma_kokushi_distinct();
    ks.unique_seq_to_set();
    assert forall|t: Tile| ks.to_set().contains(t) implies s.to_set().contains(t) by {
        let j = choose|j: int| 0 <= j < ks.len() && ks[j] == t;
        assert(spec_is_kokushi_tile(t));
        assert(crate::tile::seq_contains_tile(s, t));
        let k = choose|k: int| 0 <= k < s.len() && s[k] == t;
        assert(s.contains(t));
    }
    assert(ks.to_set().subset_of(s.to_set()));
    vstd::set_lib::lemma_len_subset(ks.to_set(), s.to_set());
    s.lemma_cardinality_of_set();
}

/// The position of each of the thirteen terminal and honour tiles in the
/// canonical list.
pub open spec fn kokushi_position(t: Tile) -> int {
    if t.suit == crate::tile::Suit::Man {
        if t.number == 1 {
            0
        } else {
            1
        }
    } else if t.suit == crate::tile::Suit::Pin {
        if t.number == 1 {
            2
        } else {
            3
        }
    } else if t.suit == crate::tile::Suit::Sou {
        if t.number == 1 {
            4
        } else {
            5
        }
    } else {
        5 + t.number
    }
}

proof fn lemma_kokushi_distinct()
    ensures
        kokushi_tiles_spec().no_duplicates(),
{
    let ks = kokushi_tiles_spec();
    assert forall|j: int| 0 <= j < 13 implies kokushi_position(#[trigger] ks[j]) == j by {
        if j == 0 {
            assert(kokushi_position(ks[0]) == 0);
        } else if j == 1 {
            assert(kokushi_position(ks[1]) == 1);
        } else if j == 2 {
            assert(kokushi_position(ks[2]) == 2);
        } else if j == 3 {
            assert(kokushi_position(ks[3]) == 3);
        } else if j == 4 {
            assert(kokushi_position(ks[4]) == 4);
        } else if j == 5 {
            assert(kokushi_position(ks[5]) == 5);
        } else if j == 6 {
            assert(kokushi_position(ks[6]) == 6);
        } else if j == 7 {
            assert(kokushi_position(ks[7]) == 7);
        } else if j == 8 {
            assert(kokushi_position(ks[8]) == 8);
        } else if j == 9 {
            assert(kokushi_position(ks[9]) == 9);
        } else if j == 10 {
            assert(kokushi_position(ks[10]) == 10);
        } else if j == 11 {
            assert(kokushi_position(ks[11]) == 11);
        } else {
            assert(kokushi_position(ks[12]) == 12);
        }
    }
}

/// The result count: one outcome per qualifying decomposition, plus one for
/// each special shape that holds.
pub proof fn lemma_result_count(tiles: Seq<Tile>, calls: Seq<Call>, ctx: HandContextV)
    ensures
        spec_calculate(tiles, calls, ctx).len() == spec_qualifying_results(
            spec_divide(tiles),
            calls,
            ctx,
        ).len() + (if spec_check_chiitoi(tiles, calls, ctx) is Some {
            1int
        } else {
            0int
        }) + (if spec_check_kokushi(tiles, calls, ctx) is Some {
            1int
        } else {
            0int
        }),
{
    lemma_ins_sorted_len(spec_qualifying_results(spec_divide(tiles), calls, ctx), calc_le_fn());
}

/// Boundary: with no qualifying decomposition and neither special shape the
/// evaluation yields the empty list, not an error.
pub proof fn lemma_no_win_no_results(tiles: Seq<Tile>, calls: Seq<Call>, ctx: HandContextV)
    requires
        spec_qualifying_results(spec_divide(tiles), calls, ctx) == Seq::<CalcResultV>::empty(),
        spec_check_chiitoi(tiles, calls, ctx) is None,
        spec_check_kokushi(tiles, calls, ctx) is None,
    ensures
        spec_calculate(tiles, calls, ctx) == Seq::<CalcResultV>::empty(),
{
    lemma_result_count(tiles, calls, ctx);
    assert(spec_calculate(tiles, calls, ctx).len() == 0);
    assert(spec_calculate(tiles, calls, ctx) =~= Seq::<CalcResultV>::empty());
}

} // verus!
