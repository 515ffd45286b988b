//! Hand scoring: wraps each calculated outcome with the context and reduces
//! it to fu and han totals, a limit tier, and a payment.

use crate::calculation::calc_le_fn;
use crate::calculation::calculate;
use crate::calculation::han_total;
use crate::calculation::lemma_han_total_concat;
use crate::calculation::lemma_han_total_push;
use crate::calculation::lemma_repeat_total;
use crate::calculation::lemma_yaku_entries_total;
use crate::calculation::lemma_yakuman_entries_total;
use crate::calculation::repeat_entry;
use crate::calculation::results_view;
use crate::calculation::spec_calculate;
use crate::calculation::spec_calculate_division;
use crate::calculation::spec_check_chiitoi;
use crate::calculation::spec_check_kokushi;
use crate::calculation::spec_han_for_division;
use crate::calculation::spec_qualifying_results;
use crate::calculation::yaku_entries;
use crate::calculation::yakuman_entries;
use crate::calculation::CalcResult;
use crate::calculation::CalcResultV;
use crate::division::spec_divide;
use crate::division::spec_is_tenpai;
use crate::division::DivisionV;
use crate::fu::fu_total;
use crate::fu::lemma_fu_sum_in_byte;
use crate::tile::copy_tiles;
use crate::tile::lemma_ins_sorted_elem;
use crate::tile::seq_contains_tile;
use crate::tile::tiles_wf;
use crate::tile::Suit;
use crate::tile::Tile;
use crate::types::calls_wf;
use crate::types::Call;
use crate::types::FuReason;
use crate::types::HandContext;
use crate::types::HandContextV;
use crate::types::HanReason;
use crate::types::Limit;
use crate::types::Points;
use crate::yaku::spec_yaku_in_hand;
use crate::yaku::spec_yaku_matches;
use crate::yaku::spec_yaku_filter;
use crate::yaku::spec_yaku_superceded;
use crate::yaku::spec_yakuman_in_hand;
use crate::yaku::spec_yakuman_matches;
use crate::yaku::spec_yakuman_filter;
use crate::yaku::spec_yakuman_superceded;
use crate::yaku::yaku_to_check_spec;
use crate::yaku::yakuman_to_check_spec;
use vstd::prelude::*;

verus! {

// ---------------------------------------------------------------------------
// Bounds: every result the pipeline produces has totals a byte and a word
// can hold.
// ---------------------------------------------------------------------------

proof fn lemma_yaku_matches_len(
    list: Seq<crate::types::Yaku>,
    d: DivisionV,
    calls: Seq<Call>,
    ctx: HandContextV,
)
    ensures
        spec_yaku_matches(list, d, calls, ctx).len() <= list.len(),
    decreases list.len(),
{
    if list.len() > 0 {
        lemma_yaku_matches_len(list.drop_last(), d, calls, ctx);
    }
}

proof fn lemma_yaku_filter_len(found: Seq<crate::types::Yaku>, sup: Seq<crate::types::Yaku>)
    ensures
        spec_yaku_filter(found, sup).len() <= found.len(),
    decreases found.len(),
{
    if found.len() > 0 {
        lemma_yaku_filter_len(found.drop_last(), sup);
    }
}

proof fn lemma_yakuman_matches_len(
    list: Seq<crate::types::Yakuman>,
    d: DivisionV,
    calls: Seq<Call>,
    ctx: HandContextV,
)
    ensures
        spec_yakuman_matches(list, d, calls, ctx).len() <= list.len(),
    decreases list.len(),
{
    if list.len() > 0 {
        lemma_yakuman_matches_len(list.drop_last(), d, calls, ctx);
    }
}

proof fn lemma_yakuman_filter_len(
    found: Seq<crate::types::Yakuman>,
    sup: Seq<crate::types::Yakuman>,
)
    ensures
        spec_yakuman_filter(found, sup).len() <= found.len(),
    decreases found.len(),
{
    if found.len() > 0 {
        lemma_yakuman_filter_len(found.drop_last(), sup);
    }
}

/// The han contributions of one decomposition stay well inside a word.
proof fn lemma_han_for_division_bound(d: DivisionV, calls: Seq<Call>, ctx: HandContextV)
    ensures
        0 <= han_total(spec_han_for_division(d, calls, ctx)) <= 1138,
{
    let ykm = spec_yakuman_in_hand(d, calls, ctx);
    let ys = spec_yaku_in_hand(d, calls, ctx);
    lemma_yakuman_matches_len(yakuman_to_check_spec(), d, calls, ctx);
    lemma_yakuman_filter_len(
        spec_yakuman_matches(yakuman_to_check_spec(), d, calls, ctx),
        spec_yakuman_superceded(spec_yakuman_matches(yakuman_to_check_spec(), d, calls, ctx)),
    );
    lemma_yaku_matches_len(yaku_to_check_spec(), d, calls, ctx);
    lemma_yaku_filter_len(
        spec_yaku_matches(yaku_to_check_spec(), d, calls, ctx),
        spec_yaku_superceded(spec_yaku_matches(yaku_to_check_spec(), d, calls, ctx)),
    );
    assert(ykm.len() <= 12);
    assert(ys.len() <= 31);
    let closed = crate::meld::spec_no_open_calls(calls);
    let a = yakuman_entries(ykm);
    let b = yaku_entries(ys, closed, ctx);
    let c1 = repeat_entry(HanReason::Yaku(crate::types::Yaku::Dora), ctx.n_dora as nat);
    let c2 = repeat_entry(HanReason::Yaku(crate::types::Yaku::Akadora), ctx.n_akadora as nat);
    let c3 = repeat_entry(HanReason::Yaku(crate::types::Yaku::Uradora), ctx.n_uradora as nat);
    lemma_yakuman_entries_total(ykm);
    lemma_yaku_entries_total(ys, closed, ctx);
    lemma_repeat_total(HanReason::Yaku(crate::types::Yaku::Dora), ctx.n_dora as nat);
    lemma_repeat_total(HanReason::Yaku(crate::types::Yaku::Akadora), ctx.n_akadora as nat);
    lemma_repeat_total(HanReason::Yaku(crate::types::Yaku::Uradora), ctx.n_uradora as nat);
    lemma_han_total_concat(a, b);
    lemma_han_total_concat(a + b, c1);
    lemma_han_total_concat(a + b + c1, c2);
    lemma_han_total_concat(a + b + c1 + c2, c3);
    assert(han_total(a) <= 13 * 12);
    assert(han_total(b) <= 7 * 31);
}

/// Every outcome of the pipeline has a fu total a byte holds and a han total
/// a word holds.
pub proof fn lemma_calculate_bounds(tiles: Seq<Tile>, calls: Seq<Call>, ctx: HandContextV)
    ensures
        forall|k: int|
            0 <= k < spec_calculate(tiles, calls, ctx).len() ==> {
                let rv = #[trigger] spec_calculate(tiles, calls, ctx)[k];
                0 <= fu_total(rv.fu_reasons) <= 250 && 0 <= han_total(rv.han_reasons) <= 2000
            },
{
    broadcast use vstd::seq_lib::group_to_multiset_ensures;

    let qual = spec_qualifying_results(spec_divide(tiles), calls, ctx);
    let sorted = crate::tile::ins_sorted(qual, calc_le_fn());
    lemma_qualifying_bounds(spec_divide(tiles), calls, ctx);
    assert forall|k: int|
        0 <= k < sorted.len() implies {
        let rv = #[trigger] sorted[k];
        0 <= fu_total(rv.fu_reasons) <= 250 && 0 <= han_total(rv.han_reasons) <= 2000
    } by {
        lemma_ins_sorted_elem(qual, calc_le_fn(), k);
        let j = choose|j: int| 0 <= j < qual.len() && qual[j] == sorted[k];
    }
    if spec_check_chiitoi(tiles, calls, ctx) is Some {
        let cv = spec_check_chiitoi(tiles, calls, ctx)->Some_0;
        let remaining = tiles.push(ctx.winning_tile);
        let d = DivisionV { pair: Seq::empty(), melds: Seq::empty(), remaining };
        lemma_han_for_division_bound(d, calls, ctx);
        assert(seq![(FuReason::Chiitoitsu, 25u8)].drop_last() =~= Seq::<(FuReason, u8)>::empty());
        assert(fu_total(Seq::<(FuReason, u8)>::empty()) == 0);
        assert(fu_total(cv.fu_reasons) == 25);
    }
    if spec_check_kokushi(tiles, calls, ctx) is Some {
        let cv = spec_check_kokushi(tiles, calls, ctx)->Some_0;
        assert(seq![(HanReason::Yakuman(crate::types::Yakuman::KokushiMusou), 13u8)].drop_last()
            =~= Seq::<(HanReason, u8)>::empty());
        assert(han_total(Seq::<(HanReason, u8)>::empty()) == 0);
        assert(han_total(cv.han_reasons) == 13);
        assert(fu_total(cv.fu_reasons) == 0);
    }
}

proof fn lemma_qualifying_bounds(divs: Seq<DivisionV>, calls: Seq<Call>, ctx: HandContextV)
    ensures
        forall|k: int|
            0 <= k < spec_qualifying_results(divs, calls, ctx).len() ==> {
                let rv = #[trigger] spec_qualifying_results(divs, calls, ctx)[k];
                0 <= fu_total(rv.fu_reasons) <= 250 && 0 <= han_total(rv.han_reasons) <= 2000
            },
    decreases divs.len(),
{
    if divs.len() > 0 {
        lemma_qualifying_bounds(divs.drop_last(), calls, ctx);
        let d = divs.last();
        if spec_is_tenpai(d, calls.len() as int) && seq_contains_tile(
            crate::division::spec_waits(d),
            ctx.winning_tile,
        ) {
            lemma_calc_division_bounds(d, calls, ctx);
        }
    }
}

proof fn lemma_calc_division_bounds(d: DivisionV, calls: Seq<Call>, ctx: HandContextV)
    requires
        d.melds.len() + calls.len() <= 4,
    ensures
        0 <= fu_total(spec_calculate_division(d, calls, ctx).fu_reasons) <= 250,
        0 <= han_total(spec_calculate_division(d, calls, ctx).han_reasons) <= 2000,
{
    lemma_fu_sum_in_byte(d, calls, ctx);
    let cd = spec_calculate_division(d, calls, ctx);
    let wm_base = if d.pair.len() != 2 {
        d.pair
    } else {
        d.remaining
    };
    let wm = crate::tile::sort_tiles_spec(wm_base.push(ctx.winning_tile));
    let ctx2 = HandContextV { winning_meld: wm, ..ctx };
    let d2 = if d.pair.len() != 2 {
        DivisionV { pair: wm, melds: d.melds, remaining: Seq::empty() }
    } else {
        DivisionV { pair: d.pair, melds: d.melds.push(wm), remaining: Seq::empty() }
    };
    lemma_han_for_division_bound(d2, calls, ctx2);
    let han0 = spec_han_for_division(d2, calls, ctx2);
    if crate::calculation::spec_is_pinfu(cd.fu_reasons) {
        lemma_han_total_push(han0, (HanReason::Yaku(crate::types::Yaku::Pinfu), 1u8));
    }
}

// ---------------------------------------------------------------------------
// ScoreResult.
// ---------------------------------------------------------------------------

/// Represents the scoring results for a single hand configuration.
#[derive(Debug)]
pub struct ScoreResult {
    calc_result: CalcResult,
    context: HandContext,
}

/// The mathematical value of a [`ScoreResult`].
pub ghost struct ScoreResultV {
    pub calc: CalcResultV,
    pub context: HandContextV,
}

impl View for ScoreResult {
    type V = ScoreResultV;

    closed spec fn view(&self) -> ScoreResultV {
        ScoreResultV { calc: self.calc_result@, context: self.context@ }
    }
}

/// The fu total of a result.
pub open spec fn spec_fu(sr: ScoreResultV) -> int {
    fu_total(sr.calc.fu_reasons)
}

/// The han total of a result, capped at thirteen for payment purposes.
pub open spec fn spec_han(sr: ScoreResultV) -> int {
    let h = han_total(sr.calc.han_reasons);
    if h > 13 {
        13
    } else {
        h
    }
}

/// The limit tier a han and fu total reach.
pub open spec fn spec_limit(han: int, fu: int) -> Limit {
    if han <= 2 {
        Limit::NoLimit
    } else if han == 3 {
        if fu >= 70 {
            Limit::Mangan
        } else {
            Limit::NoLimit
        }
    } else if han == 4 {
        if fu >= 40 {
            Limit::Mangan
        } else {
            Limit::NoLimit
        }
    } else if han == 5 {
        Limit::Mangan
    } else if han <= 7 {
        Limit::Haneman
    } else if han <= 10 {
        Limit::Baiman
    } else if han <= 12 {
        Limit::Sanbaiman
    } else {
        Limit::Yakuman
    }
}

/// The ordinary payment table is defined for exactly the (han, fu) pairs the
/// fixed ladder of legal values reaches below the limit tiers.
pub open spec fn spec_nolimit_defined(han: int, fu: int) -> bool {
    if han == 1 {
        fu == 30 || fu == 40 || fu == 50 || fu == 60 || fu == 70 || fu == 80 || fu == 90 || fu
            == 100 || fu == 110
    } else if han == 2 {
        fu == 20 || fu == 25 || fu == 30 || fu == 40 || fu == 50 || fu == 60 || fu == 70 || fu
            == 80 || fu == 90 || fu == 100 || fu == 110
    } else if han == 3 {
        fu == 20 || fu == 25 || fu == 30 || fu == 40 || fu == 50 || fu == 60
    } else if han == 4 {
        fu == 20 || fu == 25 || fu == 30
    } else {
        false
    }
}

/// The ordinary payment row: (tsumo base, dealer ron, non-dealer ron).
pub open spec fn spec_nolimit_row(han: int, fu: int) -> (u16, u16, u16) {
    if han == 1 {
        if fu == 30 {
            (500u16, 1500u16, 1000u16)
        } else if fu == 40 {
            (700u16, 2000u16, 1300u16)
        } else if fu == 50 {
            (800u16, 2400u16, 1600u16)
        } else if fu == 60 {
            (1000u16, 2900u16, 2000u16)
        } else if fu == 70 {
            (1200u16, 3400u16, 2300u16)
        } else if fu == 80 {
            (1300u16, 3900u16, 2600u16)
        } else if fu == 90 {
            (1500u16, 4400u16, 2900u16)
        } else if fu == 100 {
            (1600u16, 4800u16, 3200u16)
        } else {
            (1800u16, 5300u16, 3600u16)
        }
    } else if han == 2 {
        if fu == 20 {
            (700u16, 2000u16, 1300u16)
        } else if fu == 25 {
            (0u16, 2400u16, 1600u16)
        } else if fu == 30 {
            (1000u16, 2900u16, 2000u16)
        } else if fu == 40 {
            (1300u16, 3900u16, 2600u16)
        } else if fu == 50 {
            (1600u16, 4800u16, 3200u16)
        } else if fu == 60 {
            (2000u16, 5800u16, 3900u16)
        } else if fu == 70 {
            (2300u16, 6800u16, 4500u16)
        } else if fu == 80 {
            (2600u16, 7700u16, 5200u16)
        } else if fu == 90 {
            (2900u16, 8700u16, 5800u16)
        } else if fu == 100 {
            (3200u16, 9600u16, 6400u16)
        } else {
            (3600u16, 10600u16, 7100u16)
        }
    } else if han == 3 {
        if fu == 20 {
            (1300u16, 3900u16, 2600u16)
        } else if fu == 25 {
            (1600u16, 4800u16, 3200u16)
        } else if fu == 30 {
            (2000u16, 5800u16, 3900u16)
        } else if fu == 40 {
            (2600u16, 7700u16, 5200u16)
        } else if fu == 50 {
            (3200u16, 9600u16, 6400u16)
        } else {
            (3900u16, 11600u16, 7700u16)
        }
    } else {
        if fu == 20 {
            (2600u16, 7700u16, 5200u16)
        } else if fu == 25 {
            (3200u16, 9600u16, 6400u16)
        } else {
            (3900u16, 11600u16, 7700u16)
        }
    }
}

/// The payment row of a result: the fixed row of its limit tier, or the
/// ordinary table row below the tiers.
pub open spec fn spec_points_row(sr: ScoreResultV) -> (u16, u16, u16) {
    match spec_limit(spec_han(sr), spec_fu(sr)) {
        Limit::Mangan => (4000u16, 12000u16, 8000u16),
        Limit::Haneman => (6000u16, 18000u16, 12000u16),
        Limit::Baiman => (8000u16, 24000u16, 16000u16),
        Limit::Sanbaiman => (12000u16, 36000u16, 24000u16),
        Limit::Yakuman => (16000u16, 48000u16, 32000u16),
        Limit::NoLimit => spec_nolimit_row(spec_han(sr), spec_fu(sr)),
    }
}

/// Whether the winner is the dealer: the seat wind is the first wind.
pub open spec fn spec_is_dealer(sr: ScoreResultV) -> bool {
    sr.context.player_wind == (Tile { suit: Suit::Hon, number: 1 })
}

/// The payment of a result: nothing without han; otherwise the row applied
/// by dealer/non-dealer and self-draw/discard-win, the non-dealer self-draw
/// splitting the base with the dealer's half rounded up to the hundred.
pub open spec fn spec_points(sr: ScoreResultV) -> Points {
    if spec_han(sr) == 0 {
        Points::NoPoints
    } else {
        let row = spec_points_row(sr);
        if spec_is_dealer(sr) {
            if sr.context.is_tsumo {
                Points::TsumoAll(row.0)
            } else {
                Points::Ron(row.1)
            }
        } else {
            if sr.context.is_tsumo {
                Points::Tsumo((row.0 / 2 + (row.0 / 2) % 100) as u16, row.0)
            } else {
                Points::Ron(row.2)
            }
        }
    }
}

/// The total the winner receives under a payment.
pub open spec fn spec_points_total(p: Points) -> int {
    match p {
        Points::NoPoints => 0,
        Points::TsumoAll(a) => a * 3,
        Points::Tsumo(a, b) => a * 2 + b,
        Points::Ron(a) => a as int,
    }
}

proof fn lemma_fu_total_prefix(rs: Seq<(FuReason, u8)>, k: int)
    requires
        0 <= k <= rs.len(),
    ensures
        0 <= fu_total(rs.take(k)) <= fu_total(rs),
    decreases rs.len() - k,
{
    if k == rs.len() {
        assert(rs.take(k) =~= rs);
        lemma_fu_total_nonneg(rs.take(k));
    } else {
        lemma_fu_total_prefix(rs, k + 1);
        lemma_fu_total_nonneg(rs.take(k));
        assert(rs.take(k + 1).drop_last() =~= rs.take(k));
        assert(rs.take(k + 1).last() == rs[k]);
        assert(fu_total(rs.take(k + 1)) == fu_total(rs.take(k)) + rs[k].1);
    }
}

proof fn lemma_fu_total_nonneg(rs: Seq<(FuReason, u8)>)
    ensures
        fu_total(rs) >= 0,
    decreases rs.len(),
{
    if rs.len() > 0 {
        lemma_fu_total_nonneg(rs.drop_last());
    }
}

proof fn lemma_han_total_prefix(rs: Seq<(HanReason, u8)>, k: int)
    requires
        0 <= k <= rs.len(),
    ensures
        0 <= han_total(rs.take(k)) <= han_total(rs),
    decreases rs.len() - k,
{
    if k == rs.len() {
        assert(rs.take(k) =~= rs);
        lemma_han_total_nonneg(rs.take(k));
    } else {
        lemma_han_total_prefix(rs, k + 1);
        lemma_han_total_nonneg(rs.take(k));
        assert(rs.take(k + 1).drop_last() =~= rs.take(k));
        assert(rs.take(k + 1).last() == rs[k]);
        assert(han_total(rs.take(k + 1)) == han_total(rs.take(k)) + rs[k].1);
    }
}

proof fn lemma_han_total_nonneg(rs: Seq<(HanReason, u8)>)
    ensures
        han_total(rs) >= 0,
    decreases rs.len(),
{
    if rs.len() > 0 {
        lemma_han_total_nonneg(rs.drop_last());
    }
}

impl ScoreResult {
    /// Every constructed result keeps its totals inside machine bounds.
    #[verifier::type_invariant]
    closed spec fn bounded(self) -> bool {
        0 <= fu_total(self.calc_result@.fu_reasons) <= 250 && 0 <= han_total(
            self.calc_result@.han_reasons,
        ) <= 2000
    }

    /// The pair of the augmented decomposition.
    pub fn pair(&self) -> (r: Vec<Tile>)
        ensures
            r@ == self@.calc.pair,
    {
        copy_tiles(&self.calc_result.pair)
    }

    /// The melds of the augmented decomposition.
    pub fn melds(&self) -> (r: Vec<Vec<Tile>>)
        ensures
            crate::meld::melds_view(r@) == self@.calc.melds,
    {
        crate::meld::copy_melds(&self.calc_result.melds)
    }

    /// The leftover tiles (empty for grouped outcomes).
    pub fn remaining(&self) -> (r: Vec<Tile>)
        ensures
            r@ == self@.calc.remaining,
    {
        copy_tiles(&self.calc_result.remaining)
    }

    /// The hand's total fu.
    pub fn fu(&self) -> (r: u8)
        ensures
            r == spec_fu(self@),
    {
        proof {
            use_type_invariant(self);
        }
        let rs = &self.calc_result.fu_reasons;
        let mut total: u16 = 0;
        let mut i: usize = 0;
        while i < rs.len()
            invariant
                i <= rs@.len(),
                rs@ == self.calc_result@.fu_reasons,
                0 <= fu_total(rs@) <= 250,
                total == fu_total(rs@.take(i as int)),
                total <= 250,
            decreases rs@.len() - i,
        {
            proof {
                assert(rs@.take(i + 1).drop_last() =~= rs@.take(i as int));
                assert(rs@.take(i + 1).last() == rs@[i as int]);
                lemma_fu_total_prefix(rs@, i + 1);
            }
            total = total + (rs[i].1 as u16);
            i = i + 1;
        }
        proof {
            assert(rs@.take(rs@.len() as int) =~= rs@);
        }
        total as u8
    }

    /// The reasons contributing to the hand's total fu.
    pub fn fu_reasons(&self) -> (r: Vec<(FuReason, u8)>)
        ensures
            r@ == self@.calc.fu_reasons,
    {
        let rs = &self.calc_result.fu_reasons;
        let mut out: Vec<(FuReason, u8)> = Vec::new();
        let mut i: usize = 0;
        while i < rs.len()
            invariant
                i <= rs@.len(),
                rs@ == self.calc_result@.fu_reasons,
                out@ == rs@.take(i as int),
            decreases rs@.len() - i,
        {
            proof {
                assert(rs@.take(i + 1).drop_last() =~= rs@.take(i as int));
            }
            out.push(rs[i]);
            i = i + 1;
        }
        proof {
            assert(rs@.take(rs@.len() as int) =~= rs@);
        }
        out
    }

    /// The hand's total han, capped at thirteen for payment purposes.
    pub fn han(&self) -> (r: u8)
        ensures
            r == spec_han(self@),
    {
        proof {
            use_type_invariant(self);
        }
        let rs = &self.calc_result.han_reasons;
        let mut total: u16 = 0;
        let mut i: usize = 0;
        while i < rs.len()
            invariant
                i <= rs@.len(),
                rs@ == self.calc_result@.han_reasons,
                0 <= han_total(rs@) <= 2000,
                total == han_total(rs@.take(i as int)),
                total <= 2000,
            decreases rs@.len() - i,
        {
            proof {
                assert(rs@.take(i + 1).drop_last() =~= rs@.take(i as int));
                assert(rs@.take(i + 1).last() == rs@[i as int]);
                lemma_han_total_prefix(rs@, i + 1);
            }
            total = total + (rs[i].1 as u16);
            i = i + 1;
        }
        proof {
            assert(rs@.take(rs@.len() as int) =~= rs@);
        }
        if total > 13 {
            13
        } else {
            total as u8
        }
    }

    /// The matched yakuman contributions.
    pub open spec fn spec_yakuman_part(rs: Seq<(HanReason, u8)>) -> Seq<(HanReason, u8)>
        decreases rs.len(),
    {
        if rs.len() == 0 {
            rs
        } else {
            let rest = Self::spec_yakuman_part(rs.drop_last());
            if rs.last().0 is Yakuman {
                rest.push(rs.last())
            } else {
                rest
            }
        }
    }

    /// The ordinary yaku contributions.
    pub open spec fn spec_yaku_part(rs: Seq<(HanReason, u8)>) -> Seq<(HanReason, u8)>
        decreases rs.len(),
    {
        if rs.len() == 0 {
            rs
        } else {
            let rest = Self::spec_yaku_part(rs.drop_last());
            if rs.last().0 is Yaku {
                rest.push(rs.last())
            } else {
                rest
            }
        }
    }

    /// The externally visible han reasons: only the yakuman when any
    /// matched (a yakuman supersedes every ordinary yaku), the yaku
    /// otherwise.
    pub open spec fn spec_han_reasons(sr: ScoreResultV) -> Seq<(HanReason, u8)> {
        let ykm = Self::spec_yakuman_part(sr.calc.han_reasons);
        if ykm.len() > 0 {
            ykm
        } else {
            Self::spec_yaku_part(sr.calc.han_reasons)
        }
    }

    /// The yaku or yakuman contributing to the hand's total han.
    pub fn han_reasons(&self) -> (r: Vec<(HanReason, u8)>)
        ensures
            r@ == Self::spec_han_reasons(self@),
    {
        let rs = &self.calc_result.han_reasons;
        let mut ykm: Vec<(HanReason, u8)> = Vec::new();
        let mut yk: Vec<(HanReason, u8)> = Vec::new();
        let mut i: usize = 0;
        while i < rs.len()
            invariant
                i <= rs@.len(),
                rs@ == self.calc_result@.han_reasons,
                ykm@ == Self::spec_yakuman_part(rs@.take(i as int)),
                yk@ == Self::spec_yaku_part(rs@.take(i as int)),
            decreases rs@.len() - i,
        {
            proof {
                assert(rs@.take(i + 1).drop_last() =~= rs@.take(i as int));
                assert(rs@.take(i + 1).last() == rs@[i as int]);
            }
            let (reason, v) = rs[i];
            match reason {
                HanReason::Yakuman(_) => ykm.push((reason, v)),
                HanReason::Yaku(_) => yk.push((reason, v)),
            }
            i = i + 1;
        }
        proof {
            assert(rs@.take(rs@.len() as int) =~= rs@);
        }
        if ykm.len() > 0 {
            ykm
        } else {
            yk
        }
    }

    /// The hand's limit tier (or lack of one).
    pub fn limit(&self) -> (r: Limit)
        ensures
            r == spec_limit(spec_han(self@), spec_fu(self@)),
    {
        let han = self.han();
        let fu = self.fu();
        if han <= 2 {
            Limit::NoLimit
        } else if han == 3 {
            if fu >= 70 {
                Limit::Mangan
            } else {
                Limit::NoLimit
            }
        } else if han == 4 {
            if fu >= 40 {
                Limit::Mangan
            } else {
                Limit::NoLimit
            }
        } else if han == 5 {
            Limit::Mangan
        } else if han <= 7 {
            Limit::Haneman
        } else if han <= 10 {
            Limit::Baiman
        } else if han <= 12 {
            Limit::Sanbaiman
        } else {
            Limit::Yakuman
        }
    }

    fn is_tsumo(&self) -> (r: bool)
        ensures
            r == self@.context.is_tsumo,
    {
        self.context.is_tsumo
    }

    fn is_dealer(&self) -> (r: bool)
        ensures
            r == spec_is_dealer(self@),
    {
        self.context.player_wind == (Tile { suit: Suit::Hon, number: 1 })
    }

    fn points_lookup_nolimit(&self) -> (r: (u16, u16, u16))
        requires
            spec_nolimit_defined(spec_han(self@), spec_fu(self@)),
        ensures
            r == spec_nolimit_row(spec_han(self@), spec_fu(self@)),
    {
        let han = self.han();
        let fu = self.fu();
        if han == 1 {
            match fu {
                30 => (500, 1500, 1000),
                40 => (700, 2000, 1300),
                50 => (800, 2400, 1600),
                60 => (1000, 2900, 2000),
                70 => (1200, 3400, 2300),
                80 => (1300, 3900, 2600),
                90 => (1500, 4400, 2900),
                100 => (1600, 4800, 3200),
                _ => (1800, 5300, 3600),
            }
        } else if han == 2 {
            match fu {
                20 => (700, 2000, 1300),
                25 => (0, 2400, 1600),
                30 => (1000, 2900, 2000),
                40 => (1300, 3900, 2600),
                50 => (1600, 4800, 3200),
                60 => (2000, 5800, 3900),
                70 => (2300, 6800, 4500),
                80 => (2600, 7700, 5200),
                90 => (2900, 8700, 5800),
                100 => (3200, 9600, 6400),
                _ => (3600, 10600, 7100),
            }
        } else if han == 3 {
            match fu {
                20 => (1300, 3900, 2600),
                25 => (1600, 4800, 3200),
                30 => (2000, 5800, 3900),
                40 => (2600, 7700, 5200),
                50 => (3200, 9600, 6400),
                _ => (3900, 11600, 7700),
            }
        } else {
            match fu {
                20 => (2600, 7700, 5200),
                25 => (3200, 9600, 6400),
                _ => (3900, 11600, 7700),
            }
        }
    }

    fn points_lookup(&self) -> (r: (u16, u16, u16))
        requires
            spec_limit(spec_han(self@), spec_fu(self@)) == Limit::NoLimit ==> spec_nolimit_defined(
                spec_han(self@),
                spec_fu(self@),
            ),
        ensures
            r == spec_points_row(self@),
    {
        match self.limit() {
            Limit::Mangan => (4000, 12000, 8000),
            Limit::Haneman => (6000, 18000, 12000),
            Limit::Baiman => (8000, 24000, 16000),
            Limit::Sanbaiman => (12000, 36000, 24000),
            Limit::Yakuman => (16000, 48000, 32000),
            Limit::NoLimit => self.points_lookup_nolimit(),
        }
    }

    /// The points owed, by dealer/non-dealer and self-draw/discard-win.
    /// The payment table only has rows for the (han, fu) pairs that a
    /// consistent scoring can reach: a caller below the limit tiers must be
    /// on the fixed ladder of legal fu values.
    pub fn points(&self) -> (r: Points)
        requires
            spec_han(self@) != 0 && spec_limit(spec_han(self@), spec_fu(self@)) == Limit::NoLimit
                ==> spec_nolimit_defined(spec_han(self@), spec_fu(self@)),
        ensures
            r == spec_points(self@),
    {
        let han = self.han();
        if han == 0 {
            return Points::NoPoints;
        }
        let (tsumo_base, ron_dealer, ron_nondealer) = self.points_lookup();
        if self.is_dealer() {
            if self.is_tsumo() {
                Points::TsumoAll(tsumo_base)
            } else {
                Points::Ron(ron_dealer)
            }
        } else {
            if self.is_tsumo() {
                Points::Tsumo((tsumo_base / 2) + (tsumo_base / 2) % 100, tsumo_base)
            } else {
                Points::Ron(ron_nondealer)
            }
        }
    }

    /// The total points received.
    pub fn points_total(&self) -> (r: u16)
        requires
            spec_han(self@) != 0 && spec_limit(spec_han(self@), spec_fu(self@)) == Limit::NoLimit
                ==> spec_nolimit_defined(spec_han(self@), spec_fu(self@)),
        ensures
            r == spec_points_total(spec_points(self@)),
    {
        match self.points() {
            Points::NoPoints => 0,
            Points::TsumoAll(a) => {
                proof {
                    assert(a <= 16000);
                }
                a * 3
            },
            Points::Tsumo(a, b) => {
                proof {
                    assert(a <= 8100 && b <= 16000);
                }
                a * 2 + b
            },
            Points::Ron(a) => a,
        }
    }
}

/// Scores all winning hand configurations: one result per qualifying
/// decomposition, in the deterministic total order, plus the whole-hand
/// special shapes, each carrying the context it was scored under.
pub fn score(tiles: &Vec<Tile>, calls: &Vec<Call>, context: &HandContext) -> (r: Vec<ScoreResult>)
    requires
        tiles_wf(tiles@),
        tiles@.len() <= 14,
        calls_wf(calls@),
        context@.winning_tile.wf(),
    ensures
        r@.len() == spec_calculate(tiles@, calls@, context@).len(),
        forall|i: int|
            0 <= i < r@.len() ==> (#[trigger] r@[i]@).calc == spec_calculate(
                tiles@,
                calls@,
                context@,
            )[i] && r@[i]@.context == context@,
{
    let results = calculate(tiles, calls, context);
    let ghost rv = results_view(results@);
    proof {
        lemma_calculate_bounds(tiles@, calls@, context@);
    }
    let mut rest = results;
    let mut out: Vec<ScoreResult> = Vec::new();
    while rest.len() > 0
        invariant
            rest@.len() <= rv.len(),
            rv == spec_calculate(tiles@, calls@, context@),
            results_view(rest@) == rv.skip(rv.len() - rest@.len()),
            out@.len() == rv.len() - rest@.len(),
            forall|i: int|
                0 <= i < out@.len() ==> (#[trigger] out@[i]@).calc == rv[i] && out@[i]@.context
                    == context@,
            forall|k: int|
                0 <= k < rv.len() ==> 0 <= fu_total((#[trigger] rv[k]).fu_reasons) <= 250 && 0
                    <= han_total(rv[k].han_reasons) <= 2000,
        decreases rest@.len(),
    {
        let ghost i = rv.len() - rest@.len();
        proof {
            assert(results_view(rest@)[0] == rv.skip(i)[0]);
            assert(rv.skip(i)[0] == rv[i]);
        }
        let ghost before = rest@;
        let c = rest.remove(0);
        proof {
            assert(rest@ =~= before.drop_first());
            assert forall|k: int|
                0 <= k < rest@.len() implies results_view(rest@)[k] == rv.skip(i + 1)[k] by {
                assert(rest@[k] == before[k + 1]);
                assert(results_view(before)[k + 1] == rv.skip(i)[k + 1]);
                assert(rv.skip(i)[k + 1] == rv.skip(i + 1)[k]);
            }
            assert(results_view(rest@) =~= rv.skip(i + 1));
            assert(c@ == rv[i]);
        }
        let sr = ScoreResult { calc_result: c, context: context.clone() };
        out.push(sr);
    }
    out
}

} // verus!
