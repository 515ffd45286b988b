//! The fu scorer: an additive, reason-tagged point calculator for one
//! decomposition, with the total rounded up to the next multiple of ten.

use crate::division::div_wf;
use crate::division::Division;
use crate::division::DivisionV;
use crate::meld::is_kanchan;
use crate::meld::is_penchan;
use crate::meld::is_shanpon;
use crate::meld::is_triplet;
use crate::meld::no_open_calls;
use crate::meld::spec_is_kanchan;
use crate::meld::spec_is_penchan;
use crate::meld::spec_is_shanpon;
use crate::meld::spec_is_triplet;
use crate::meld::spec_no_open_calls;
use crate::tile::Tile;
use crate::types::Call;
use crate::types::CallType;
use crate::types::FuReason;
use crate::types::HandContext;
use crate::types::HandContextV;
use vstd::prelude::*;

verus! {

/// The point value of one fu reason.
pub open spec fn fu_value(r: FuReason) -> u8 {
    match r {
        FuReason::Base => 20,
        FuReason::Chiitoitsu => 25,
        FuReason::ClosedRon => 10,
        FuReason::TsumoNoPinfu | FuReason::OpenPinfu => 2,
        FuReason::YakuhaiPairColours
        | FuReason::YakuhaiPairRoundWind
        | FuReason::YakuhaiPairPlayerWind => 2,
        FuReason::OpenTripletHonours | FuReason::OpenTripletTerminals => 4,
        FuReason::OpenTripletSimples => 2,
        FuReason::ClosedTripletHonours | FuReason::ClosedTripletTerminals => 8,
        FuReason::ClosedTripletSimples => 4,
        FuReason::OpenQuadHonours | FuReason::OpenQuadTerminals => 16,
        FuReason::OpenQuadSimples => 8,
        FuReason::ClosedQuadHonours | FuReason::ClosedQuadTerminals => 32,
        FuReason::ClosedQuadSimples => 16,
        FuReason::Kanchan | FuReason::Penchan | FuReason::Tanki => 2,
        FuReason::RoundUp | FuReason::NotWinning => 0,
    }
}

/// The point value of one fu reason.
pub fn score_reason(reason: &FuReason) -> (v: u8)
    ensures
        v == fu_value(*reason),
        v <= 32,
{
    match reason {
        FuReason::Base => 20,
        FuReason::Chiitoitsu => 25,
        FuReason::ClosedRon => 10,
        FuReason::TsumoNoPinfu | FuReason::OpenPinfu => 2,
        FuReason::YakuhaiPairColours
        | FuReason::YakuhaiPairRoundWind
        | FuReason::YakuhaiPairPlayerWind => 2,
        FuReason::OpenTripletHonours | FuReason::OpenTripletTerminals => 4,
        FuReason::OpenTripletSimples => 2,
        FuReason::ClosedTripletHonours | FuReason::ClosedTripletTerminals => 8,
        FuReason::ClosedTripletSimples => 4,
        FuReason::OpenQuadHonours | FuReason::OpenQuadTerminals => 16,
        FuReason::OpenQuadSimples => 8,
        FuReason::ClosedQuadHonours | FuReason::ClosedQuadTerminals => 32,
        FuReason::ClosedQuadSimples => 16,
        FuReason::Kanchan | FuReason::Penchan | FuReason::Tanki => 2,
        FuReason::RoundUp | FuReason::NotWinning => 0,
    }
}

/// The summed values of a reason list.
pub open spec fn fu_sum(rs: Seq<FuReason>) -> int
    decreases rs.len(),
{
    if rs.len() == 0 {
        0
    } else {
        fu_sum(rs.drop_last()) + fu_value(rs.last())
    }
}

/// The summed values of a tagged contribution list.
pub open spec fn fu_total(rs: Seq<(FuReason, u8)>) -> int
    decreases rs.len(),
{
    if rs.len() == 0 {
        0
    } else {
        fu_total(rs.drop_last()) + rs.last().1
    }
}

/// A push adds its value to the sum.
pub proof fn lemma_fu_sum_push(s: Seq<FuReason>, x: FuReason)
    ensures
        fu_sum(s.push(x)) == fu_sum(s) + fu_value(x),
{
    assert(s.push(x).drop_last() =~= s);
    assert(s.push(x).last() == x);
}

/// A push adds its value to the tagged sum.
pub proof fn lemma_fu_total_push(s: Seq<(FuReason, u8)>, x: (FuReason, u8))
    ensures
        fu_total(s.push(x)) == fu_total(s) + x.1,
{
    assert(s.push(x).drop_last() =~= s);
    assert(s.push(x).last() == x);
}

/// Sums distribute over concatenation of reason lists.
pub proof fn lemma_fu_sum_concat(a: Seq<FuReason>, b: Seq<FuReason>)
    ensures
        fu_sum(a + b) == fu_sum(a) + fu_sum(b),
    decreases b.len(),
{
    if b.len() == 0 {
        assert(a + b =~= a);
    } else {
        lemma_fu_sum_concat(a, b.drop_last());
        assert((a + b).drop_last() =~= a + b.drop_last());
    }
}

/// The fu reason of the wait-completed group, when it is a paired wait that
/// the winning tile turns into a triplet: counted as concealed on a
/// self-draw, as exposed on a discard win.
pub open spec fn completed_meld_fu(remaining: Seq<Tile>, winning_tile: Tile, tsumo: bool) -> Seq<
    FuReason,
> {
    if spec_is_shanpon(remaining) {
        if winning_tile.spec_is_honour() {
            if tsumo {
                seq![FuReason::ClosedTripletHonours]
            } else {
                seq![FuReason::OpenTripletHonours]
            }
        } else if winning_tile.spec_is_terminal() {
            if tsumo {
                seq![FuReason::ClosedTripletTerminals]
            } else {
                seq![FuReason::OpenTripletTerminals]
            }
        } else {
            if tsumo {
                seq![FuReason::ClosedTripletSimples]
            } else {
                seq![FuReason::OpenTripletSimples]
            }
        }
    } else {
        Seq::empty()
    }
}

/// Scores the group the winning tile completes.
pub fn score_completed_meld(remaining: &Vec<Tile>, winning_tile: &Tile, tsumo: bool) -> (r: Vec<
    FuReason,
>)
    ensures
        r@ == completed_meld_fu(remaining@, *winning_tile, tsumo),
{
    let mut r: Vec<FuReason> = Vec::new();
    if is_shanpon(remaining) {
        if winning_tile.is_honour() {
            r.push(if tsumo {
                FuReason::ClosedTripletHonours
            } else {
                FuReason::OpenTripletHonours
            });
        } else if winning_tile.is_terminal() {
            r.push(if tsumo {
                FuReason::ClosedTripletTerminals
            } else {
                FuReason::OpenTripletTerminals
            });
        } else {
            r.push(if tsumo {
                FuReason::ClosedTripletSimples
            } else {
                FuReason::OpenTripletSimples
            });
        }
    }
    proof {
        assert(r@ =~= completed_meld_fu(remaining@, *winning_tile, tsumo));
    }
    r
}

/// The pair's fu reasons: a dragon pair, the round-wind pair, the seat-wind
/// pair, each checked independently.
pub open spec fn pair_fu(pair: Seq<Tile>, round_wind: Tile, player_wind: Tile) -> Seq<FuReason> {
    if pair.len() != 2 {
        Seq::empty()
    } else {
        (if pair[0].spec_is_colour() {
            seq![FuReason::YakuhaiPairColours]
        } else {
            Seq::empty()
        }) + (if pair[0] == round_wind {
            seq![FuReason::YakuhaiPairRoundWind]
        } else {
            Seq::empty()
        }) + (if pair[0] == player_wind {
            seq![FuReason::YakuhaiPairPlayerWind]
        } else {
            Seq::empty()
        })
    }
}

/// Scores the pair.
pub fn score_pair(pair: &Vec<Tile>, round_wind: &Tile, player_wind: &Tile) -> (r: Vec<FuReason>)
    ensures
        r@ == pair_fu(pair@, *round_wind, *player_wind),
{
    let mut r: Vec<FuReason> = Vec::new();
    if pair.len() != 2 {
        proof {
            assert(r@ =~= pair_fu(pair@, *round_wind, *player_wind));
        }
        return r;
    }
    if pair[0].is_colour() {
        r.push(FuReason::YakuhaiPairColours);
    }
    if pair[0] == *round_wind {
        r.push(FuReason::YakuhaiPairRoundWind);
    }
    if pair[0] == *player_wind {
        r.push(FuReason::YakuhaiPairPlayerWind);
    }
    proof {
        assert(r@ =~= pair_fu(pair@, *round_wind, *player_wind));
    }
    r
}

/// A concealed meld's fu reason: only triplets score, by tile class.
pub open spec fn meld_fu(m: Seq<Tile>) -> Seq<FuReason> {
    if spec_is_triplet(m) {
        if m[0].spec_is_honour() {
            seq![FuReason::ClosedTripletHonours]
        } else if m[0].spec_is_terminal() {
            seq![FuReason::ClosedTripletTerminals]
        } else {
            seq![FuReason::ClosedTripletSimples]
        }
    } else {
        Seq::empty()
    }
}

/// Scores one concealed meld.
pub fn score_meld(meld: &Vec<Tile>) -> (r: Vec<FuReason>)
    ensures
        r@ == meld_fu(meld@),
{
    let mut r: Vec<FuReason> = Vec::new();
    if is_triplet(meld) {
        if meld[0].is_honour() {
            r.push(FuReason::ClosedTripletHonours);
        } else if meld[0].is_terminal() {
            r.push(FuReason::ClosedTripletTerminals);
        } else {
            r.push(FuReason::ClosedTripletSimples);
        }
    }
    proof {
        assert(r@ =~= meld_fu(meld@));
    }
    r
}

/// The fu reasons of the concealed melds, in order.
pub open spec fn melds_fu(ms: Seq<Seq<Tile>>) -> Seq<FuReason>
    decreases ms.len(),
{
    if ms.len() == 0 {
        Seq::empty()
    } else {
        melds_fu(ms.drop_last()) + meld_fu(ms.last())
    }
}

/// The concealed melds sum to at most 8 fu each.
pub proof fn lemma_melds_fu_sum(ms: Seq<Seq<Tile>>)
    ensures
        0 <= fu_sum(melds_fu(ms)) <= ms.len() * 8,
    decreases ms.len(),
{
    proof_fuel_fu_sum();
    if ms.len() == 0 {
    } else {
        lemma_melds_fu_sum(ms.drop_last());
        lemma_fu_sum_concat(melds_fu(ms.drop_last()), meld_fu(ms.last()));
        assert(fu_sum(meld_fu(ms.last())) <= 8);
        assert(ms.len() * 8 == (ms.len() - 1) * 8 + 8) by (nonlinear_arith);
    }
}

/// A call's fu reason: exposed or concealed, triplet or quad, by tile class.
pub open spec fn call_fu(c: Call) -> Seq<FuReason> {
    match c.ctype {
        CallType::Pon => if c.tile.spec_is_honour() {
            seq![FuReason::OpenTripletHonours]
        } else if c.tile.spec_is_terminal() {
            seq![FuReason::OpenTripletTerminals]
        } else {
            seq![FuReason::OpenTripletSimples]
        },
        CallType::Minkan => if c.tile.spec_is_honour() {
            seq![FuReason::OpenQuadHonours]
        } else if c.tile.spec_is_terminal() {
            seq![FuReason::OpenQuadTerminals]
        } else {
            seq![FuReason::OpenQuadSimples]
        },
        CallType::Ankan => if c.tile.spec_is_honour() {
            seq![FuReason::ClosedQuadHonours]
        } else if c.tile.spec_is_terminal() {
            seq![FuReason::ClosedQuadTerminals]
        } else {
            seq![FuReason::ClosedQuadSimples]
        },
        CallType::Chi | CallType::NoCall => Seq::empty(),
    }
}

/// Scores one call.
pub fn score_call(call: &Call) -> (r: Vec<FuReason>)
    ensures
        r@ == call_fu(*call),
{
    let mut r: Vec<FuReason> = Vec::new();
    match call.ctype {
        CallType::Pon => {
            if call.tile.is_honour() {
                r.push(FuReason::OpenTripletHonours);
            } else if call.tile.is_terminal() {
                r.push(FuReason::OpenTripletTerminals);
            } else {
                r.push(FuReason::OpenTripletSimples);
            }
        },
        CallType::Minkan => {
            if call.tile.is_honour() {
                r.push(FuReason::OpenQuadHonours);
            } else if call.tile.is_terminal() {
                r.push(FuReason::OpenQuadTerminals);
            } else {
                r.push(FuReason::OpenQuadSimples);
            }
        },
        CallType::Ankan => {
            if call.tile.is_honour() {
                r.push(FuReason::ClosedQuadHonours);
            } else if call.tile.is_terminal() {
                r.push(FuReason::ClosedQuadTerminals);
            } else {
                r.push(FuReason::ClosedQuadSimples);
            }
        },
        CallType::Chi | CallType::NoCall => {},
    }
    proof {
        assert(r@ =~= call_fu(*call));
    }
    r
}

/// The fu reasons of the calls, in call order.
pub open spec fn calls_fu(calls: Seq<Call>) -> Seq<FuReason>
    decreases calls.len(),
{
    if calls.len() == 0 {
        Seq::empty()
    } else {
        calls_fu(calls.drop_last()) + call_fu(calls.last())
    }
}

/// The calls sum to at most 32 fu each.
pub proof fn lemma_calls_fu_sum(calls: Seq<Call>)
    ensures
        0 <= fu_sum(calls_fu(calls)) <= calls.len() * 32,
    decreases calls.len(),
{
    proof_fuel_fu_sum();
    if calls.len() == 0 {
    } else {
        lemma_calls_fu_sum(calls.drop_last());
        lemma_fu_sum_concat(calls_fu(calls.drop_last()), call_fu(calls.last()));
        assert(fu_sum(call_fu(calls.last())) <= 32);
        assert(calls.len() * 32 == (calls.len() - 1) * 32 + 32) by (nonlinear_arith);
    }
}

/// The wait-shape fu reasons: a single-tile wait scores its own bonus and
/// any honour-pair bonuses the completed pair would earn; a gap or edge wait
/// scores its bonus; two-sided and paired waits earn none.
pub open spec fn wait_fu(remaining: Seq<Tile>, ctx: HandContextV) -> Seq<FuReason> {
    (if remaining.len() == 1 {
        seq![FuReason::Tanki] + (if remaining[0] == ctx.round_wind {
            seq![FuReason::YakuhaiPairRoundWind]
        } else {
            Seq::empty()
        }) + (if remaining[0] == ctx.player_wind {
            seq![FuReason::YakuhaiPairPlayerWind]
        } else {
            Seq::empty()
        }) + (if remaining[0].spec_is_colour() {
            seq![FuReason::YakuhaiPairColours]
        } else {
            Seq::empty()
        })
    } else {
        Seq::empty()
    }) + (if spec_is_kanchan(remaining) {
        seq![FuReason::Kanchan]
    } else if spec_is_penchan(remaining) {
        seq![FuReason::Penchan]
    } else {
        Seq::empty()
    })
}

/// All fu reasons of a decomposition, in the order they are found: the base,
/// the completed group, the pair, the concealed melds, the calls, the wait
/// shape, the winning condition, and the open-hand floor bonus.
pub open spec fn fu_reasons_spec(d: DivisionV, calls: Seq<Call>, ctx: HandContextV) -> Seq<
    FuReason,
> {
    let base = seq![FuReason::Base] + completed_meld_fu(d.remaining, ctx.winning_tile, ctx.is_tsumo)
        + pair_fu(d.pair, ctx.round_wind, ctx.player_wind) + melds_fu(d.melds) + calls_fu(calls)
        + wait_fu(d.remaining, ctx);
    let closed = spec_no_open_calls(calls);
    let with_win = if !ctx.is_tsumo {
        if closed {
            base.push(FuReason::ClosedRon)
        } else {
            base
        }
    } else {
        if base.len() > 1 || !closed {
            base.push(FuReason::TsumoNoPinfu)
        } else {
            base
        }
    };
    if with_win.len() == 1 && !closed {
        with_win.push(FuReason::OpenPinfu)
    } else {
        with_win
    }
}

/// The least multiple of ten at or above `x` (for non-negative `x`).
pub open spec fn round_up_ten(x: int) -> int {
    if x % 10 == 0 {
        x
    } else {
        x + 10 - x % 10
    }
}

/// The tagged fu contributions of a decomposition: each reason with its
/// value, and a final round-up entry when the total is not a multiple of
/// ten.
pub open spec fn spec_fu_for_division(d: DivisionV, calls: Seq<Call>, ctx: HandContextV) -> Seq<
    (FuReason, u8),
> {
    let rs = fu_reasons_spec(d, calls, ctx);
    let tagged = Seq::new(rs.len(), |i: int| (rs[i], fu_value(rs[i])));
    let total = fu_sum(rs);
    if total % 10 != 0 {
        tagged.push((FuReason::RoundUp, (10 - total % 10) as u8))
    } else {
        tagged
    }
}

/// The tagged sum equals the plain sum.
pub proof fn lemma_fu_total_tagged(rs: Seq<FuReason>)
    ensures
        fu_total(Seq::new(rs.len(), |i: int| (rs[i], fu_value(rs[i])))) == fu_sum(rs),
    decreases rs.len(),
{
    if rs.len() > 0 {
        lemma_fu_total_tagged(rs.drop_last());
        assert(Seq::new(rs.len(), |i: int| (rs[i], fu_value(rs[i]))).drop_last() =~= Seq::new(
            rs.drop_last().len(),
            |i: int| (rs.drop_last()[i], fu_value(rs.drop_last()[i])),
        ));
    }
}

/// The reason sum of a decomposition with at most four groups in melds and
/// calls together stays below the round-up ceiling of a byte.
pub proof fn lemma_fu_sum_in_byte(d: DivisionV, calls: Seq<Call>, ctx: HandContextV)
    requires
        d.melds.len() + calls.len() <= 4,
    ensures
        0 <= fu_sum(fu_reasons_spec(d, calls, ctx)) <= 230,
        0 <= fu_total(spec_fu_for_division(d, calls, ctx)) <= 240,
{
    proof_fuel_fu_sum();
    let base = seq![FuReason::Base] + completed_meld_fu(d.remaining, ctx.winning_tile, ctx.is_tsumo)
        + pair_fu(d.pair, ctx.round_wind, ctx.player_wind) + melds_fu(d.melds) + calls_fu(calls)
        + wait_fu(d.remaining, ctx);
    lemma_fu_sum_concat(
        seq![FuReason::Base],
        completed_meld_fu(d.remaining, ctx.winning_tile, ctx.is_tsumo),
    );
    lemma_fu_sum_concat(
        seq![FuReason::Base] + completed_meld_fu(d.remaining, ctx.winning_tile, ctx.is_tsumo),
        pair_fu(d.pair, ctx.round_wind, ctx.player_wind),
    );
    lemma_fu_sum_concat(
        seq![FuReason::Base] + completed_meld_fu(d.remaining, ctx.winning_tile, ctx.is_tsumo)
            + pair_fu(d.pair, ctx.round_wind, ctx.player_wind),
        melds_fu(d.melds),
    );
    lemma_fu_sum_concat(
        seq![FuReason::Base] + completed_meld_fu(d.remaining, ctx.winning_tile, ctx.is_tsumo)
            + pair_fu(d.pair, ctx.round_wind, ctx.player_wind) + melds_fu(d.melds),
        calls_fu(calls),
    );
    lemma_fu_sum_concat(
        seq![FuReason::Base] + completed_meld_fu(d.remaining, ctx.winning_tile, ctx.is_tsumo)
            + pair_fu(d.pair, ctx.round_wind, ctx.player_wind) + melds_fu(d.melds) + calls_fu(
            calls,
        ),
        wait_fu(d.remaining, ctx),
    );
    assert(fu_sum(seq![FuReason::Base]) == 20);
    assert(fu_sum(completed_meld_fu(d.remaining, ctx.winning_tile, ctx.is_tsumo)) <= 8);
    lemma_pair_fu_sum(d.pair, ctx.round_wind, ctx.player_wind);
    lemma_melds_fu_sum(d.melds);
    lemma_calls_fu_sum(calls);
    lemma_wait_fu_sum(d.remaining, ctx);
    assert(d.melds.len() * 8 + calls.len() * 32 <= 128) by (nonlinear_arith)
        requires
            d.melds.len() + calls.len() <= 4,
    ;
    assert(fu_sum(base) <= 20 + 8 + 6 + 128 + 10);
    let rs = fu_reasons_spec(d, calls, ctx);
    lemma_fu_sum_push(base, FuReason::ClosedRon);
    lemma_fu_sum_push(base, FuReason::TsumoNoPinfu);
    lemma_fu_sum_push(base.push(FuReason::ClosedRon), FuReason::OpenPinfu);
    lemma_fu_sum_push(base.push(FuReason::TsumoNoPinfu), FuReason::OpenPinfu);
    lemma_fu_sum_push(base, FuReason::OpenPinfu);
    lemma_fu_sum_nonneg(base);
    assert(fu_sum(rs) <= fu_sum(base) + 10 + 2);
    assert(fu_sum(rs) >= 0) by {
        lemma_fu_sum_nonneg(rs);
    }
    lemma_fu_total_tagged(rs);
    let tagged = Seq::new(rs.len(), |i: int| (rs[i], fu_value(rs[i])));
    if fu_sum(rs) % 10 != 0 {
        lemma_fu_total_push(tagged, (FuReason::RoundUp, (10 - fu_sum(rs) % 10) as u8));
    }
}

/// The pair earns at most three bonuses of two.
proof fn lemma_pair_fu_sum(pair: Seq<Tile>, rw: Tile, pw: Tile)
    ensures
        0 <= fu_sum(pair_fu(pair, rw, pw)) <= 6,
{
    proof_fuel_fu_sum();
    if pair.len() == 2 {
        let a: Seq<FuReason> = if pair[0].spec_is_colour() {
            seq![FuReason::YakuhaiPairColours]
        } else {
            Seq::empty()
        };
        let b: Seq<FuReason> = if pair[0] == rw {
            seq![FuReason::YakuhaiPairRoundWind]
        } else {
            Seq::empty()
        };
        let c: Seq<FuReason> = if pair[0] == pw {
            seq![FuReason::YakuhaiPairPlayerWind]
        } else {
            Seq::empty()
        };
        lemma_fu_sum_concat(a, b);
        lemma_fu_sum_concat(a + b, c);
    }
}

/// The wait shape earns at most ten.
proof fn lemma_wait_fu_sum(remaining: Seq<Tile>, ctx: HandContextV)
    ensures
        0 <= fu_sum(wait_fu(remaining, ctx)) <= 10,
{
    proof_fuel_fu_sum();
    let tanki: Seq<FuReason> = if remaining.len() == 1 {
        seq![FuReason::Tanki] + (if remaining[0] == ctx.round_wind {
            seq![FuReason::YakuhaiPairRoundWind]
        } else {
            Seq::empty()
        }) + (if remaining[0] == ctx.player_wind {
            seq![FuReason::YakuhaiPairPlayerWind]
        } else {
            Seq::empty()
        }) + (if remaining[0].spec_is_colour() {
            seq![FuReason::YakuhaiPairColours]
        } else {
            Seq::empty()
        })
    } else {
        Seq::empty()
    };
    let gap: Seq<FuReason> = if spec_is_kanchan(remaining) {
        seq![FuReason::Kanchan]
    } else if spec_is_penchan(remaining) {
        seq![FuReason::Penchan]
    } else {
        Seq::empty()
    };
    if remaining.len() == 1 {
        let a = seq![FuReason::Tanki];
        let b: Seq<FuReason> = if remaining[0] == ctx.round_wind {
            seq![FuReason::YakuhaiPairRoundWind]
        } else {
            Seq::empty()
        };
        let c: Seq<FuReason> = if remaining[0] == ctx.player_wind {
            seq![FuReason::YakuhaiPairPlayerWind]
        } else {
            Seq::empty()
        };
        let e: Seq<FuReason> = if remaining[0].spec_is_colour() {
            seq![FuReason::YakuhaiPairColours]
        } else {
            Seq::empty()
        };
        lemma_fu_sum_concat(a, b);
        lemma_fu_sum_concat(a + b, c);
        lemma_fu_sum_concat(a + b + c, e);
    }
    lemma_fu_sum_concat(tanki, gap);
}

/// Scores the completed group, the pair, and the concealed melds of a
/// decomposition.
pub fn score_melds(
    division: &Division,
    winning_tile: &Tile,
    tsumo: bool,
    round_wind: &Tile,
    player_wind: &Tile,
) -> (r: Vec<FuReason>)
    ensures
        r@ == completed_meld_fu(division@.remaining, *winning_tile, tsumo) + pair_fu(
            division@.pair,
            *round_wind,
            *player_wind,
        ) + melds_fu(division@.melds),
{
    let mut r = score_completed_meld(&division.remaining, winning_tile, tsumo);
    let mut pr = score_pair(&division.pair, round_wind, player_wind);
    r.append(&mut pr);
    let ghost head = completed_meld_fu(division@.remaining, *winning_tile, tsumo) + pair_fu(
        division@.pair,
        *round_wind,
        *player_wind,
    );
    proof {
        assert(r@ == head);
    }
    let mut i: usize = 0;
    while i < division.melds.len()
        invariant
            i <= division.melds@.len(),
            r@ == head + melds_fu(division@.melds.take(i as int)),
        decreases division.melds@.len() - i,
    {
        proof {
            assert(division@.melds.take(i + 1).drop_last() =~= division@.melds.take(i as int));
            assert(division@.melds.take(i + 1).last() == division.melds@[i as int]@);
        }
        let mut mr = score_meld(&division.melds[i]);
        r.append(&mut mr);
        proof {
            assert(r@ =~= head + melds_fu(division@.melds.take(i + 1)));
        }
        i = i + 1;
    }
    proof {
        assert(division@.melds.take(division.melds@.len() as int) =~= division@.melds);
    }
    r
}

/// Computes every tagged fu contribution of one decomposition against the
/// calls and context, ending with the round-up entry when the raw total is
/// not a multiple of ten.
#[verifier::rlimit(60)]
pub fn fu_for_division(division: &Division, calls: &Vec<Call>, context: &HandContext) -> (r: Vec<
    (FuReason, u8),
>)
    requires
        div_wf(division@),
        division@.melds.len() + calls@.len() <= 4,
    ensures
        r@ == spec_fu_for_division(division@, calls@, context@),
        fu_total(r@) == round_up_ten(fu_sum(fu_reasons_spec(division@, calls@, context@))),
{
    let mut reasons: Vec<FuReason> = Vec::new();
    reasons.push(FuReason::Base);
    proof {
        assert(reasons@ =~= seq![FuReason::Base]);
    }
    let mut sm = score_melds(
        division,
        &context.winning_tile,
        context.is_tsumo,
        &context.round_wind,
        &context.player_wind,
    );
    reasons.append(&mut sm);

    let mut i: usize = 0;
    let ghost head = seq![FuReason::Base] + completed_meld_fu(
        division@.remaining,
        context@.winning_tile,
        context@.is_tsumo,
    ) + pair_fu(division@.pair, context@.round_wind, context@.player_wind) + melds_fu(
        division@.melds,
    );
    proof {
        assert(reasons@ =~= head);
    }
    while i < calls.len()
        invariant
            i <= calls@.len(),
            reasons@ == head + calls_fu(calls@.take(i as int)),
        decreases calls@.len() - i,
    {
        proof {
            assert(calls@.take(i + 1).drop_last() =~= calls@.take(i as int));
        }
        let mut cr = score_call(&calls[i]);
        reasons.append(&mut cr);
        proof {
            assert(reasons@ =~= head + calls_fu(calls@.take(i + 1)));
        }
        i = i + 1;
    }
    proof {
        assert(calls@.take(calls@.len() as int) =~= calls@);
    }

    if division.remaining.len() == 1 {
        reasons.push(FuReason::Tanki);
        if division.remaining[0] == context.round_wind {
            reasons.push(FuReason::YakuhaiPairRoundWind);
        }
        if division.remaining[0] == context.player_wind {
            reasons.push(FuReason::YakuhaiPairPlayerWind);
        }
        if division.remaining[0].is_colour() {
            reasons.push(FuReason::YakuhaiPairColours);
        }
    }
    if is_kanchan(&division.remaining) {
        reasons.push(FuReason::Kanchan);
    } else if is_penchan(&division.remaining) {
        reasons.push(FuReason::Penchan);
    }
    let ghost base = head + calls_fu(calls@) + wait_fu(division@.remaining, context@);
    proof {
        assert(reasons@ =~= base);
    }

    let hand_is_closed = no_open_calls(calls);
    if !context.is_tsumo {
        if hand_is_closed {
            reasons.push(FuReason::ClosedRon);
        }
    } else {
        if reasons.len() > 1 || !hand_is_closed {
            reasons.push(FuReason::TsumoNoPinfu);
        }
    }
    if reasons.len() == 1 && !hand_is_closed {
        reasons.push(FuReason::OpenPinfu);
    }
    let ghost rs = fu_reasons_spec(division@, calls@, context@);
    proof {
        assert(reasons@ == rs);
    }

    let mut tagged: Vec<(FuReason, u8)> = Vec::new();
    let mut total: u16 = 0;
    let mut k: usize = 0;
    proof {
        lemma_fu_sum_in_byte(division@, calls@, context@);
        lemma_fu_sum_prefix_bound(rs);
    }
    while k < reasons.len()
        invariant
            k <= reasons@.len(),
            reasons@ == rs,
            tagged@ == Seq::new(k as nat, |i: int| (rs[i], fu_value(rs[i]))),
            total == fu_sum(rs.take(k as int)),
            0 <= fu_sum(rs) <= 230,
            0 <= fu_sum(rs.take(k as int)) <= 230,
        decreases reasons@.len() - k,
    {
        proof {
            assert(rs.take(k + 1).drop_last() =~= rs.take(k as int));
            assert(rs.take(k + 1).last() == rs[k as int]);
            lemma_fu_sum_prefix_bound(rs);
        }
        let v = score_reason(&reasons[k]);
        tagged.push((reasons[k], v));
        proof {
            assert(tagged@ =~= Seq::new((k + 1) as nat, |i: int| (rs[i], fu_value(rs[i]))));
        }
        total = total + (v as u16);
        k = k + 1;
    }
    proof {
        assert(rs.take(rs.len() as int) =~= rs);
        assert(tagged@ =~= Seq::new(rs.len(), |i: int| (rs[i], fu_value(rs[i]))));
        lemma_fu_total_tagged(rs);
    }
    if total % 10 != 0 {
        let round_up = 10 - (total % 10);
        proof {
            lemma_fu_total_push(tagged@, (FuReason::RoundUp, ((10 - total % 10) as u8)));
        }
        tagged.push((FuReason::RoundUp, round_up as u8));
    }
    tagged
}

/// Every prefix sum of a reason list stays within the whole list's bounds.
proof fn lemma_fu_sum_prefix_bound(rs: Seq<FuReason>)
    ensures
        forall|k: int| 0 <= k <= rs.len() ==> 0 <= fu_sum(#[trigger] rs.take(k)) <= fu_sum(rs),
    decreases rs.len(),
{
    assert forall|k: int| 0 <= k <= rs.len() implies 0 <= fu_sum(#[trigger] rs.take(k)) <= fu_sum(
        rs,
    ) by {
        lemma_fu_sum_take_le(rs, k);
    }
}

proof fn lemma_fu_sum_take_le(rs: Seq<FuReason>, k: int)
    requires
        0 <= k <= rs.len(),
    ensures
        0 <= fu_sum(rs.take(k)) <= fu_sum(rs),
    decreases rs.len() - k,
{
    if k == rs.len() {
        assert(rs.take(k) =~= rs);
        lemma_fu_sum_nonneg(rs);
    } else {
        lemma_fu_sum_take_le(rs, k + 1);
        lemma_fu_sum_nonneg(rs.take(k));
        assert(rs.take(k + 1).drop_last() =~= rs.take(k));
        assert(rs.take(k + 1).last() == rs[k]);
        assert(fu_sum(rs.take(k + 1)) == fu_sum(rs.take(k)) + fu_value(rs[k]));
    }
}

/// Makes the small unfoldings of `fu_sum` available to a proof.
proof fn proof_fuel_fu_sum()
    ensures
        fu_sum(Seq::<FuReason>::empty()) == 0,
        forall|r: FuReason| #[trigger] fu_sum(seq![r]) == fu_value(r),
{
    assert forall|r: FuReason| #[trigger] fu_sum(seq![r]) == fu_value(r) by {
        assert(seq![r].drop_last() =~= Seq::<FuReason>::empty());
        assert(fu_sum(Seq::<FuReason>::empty()) == 0);
    }
}

pub proof fn lemma_fu_sum_nonneg(rs: Seq<FuReason>)
    ensures
        fu_sum(rs) >= 0,
    decreases rs.len(),
{
    if rs.len() > 0 {
        lemma_fu_sum_nonneg(rs.drop_last());
    }
}

} // verus!
