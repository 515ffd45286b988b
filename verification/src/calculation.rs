//! Per-decomposition scoring and the full evaluation pipeline: enumerate the
//! decompositions, keep those that win on the winning tile, score each one,
//! and return the results in a deterministic total order, with the two
//! whole-hand special shapes appended.

use crate::division::div_wf;
use crate::division::divide;
use crate::division::divs_view;
use crate::division::spec_divide;
use crate::division::spec_is_tenpai;
use crate::division::spec_waits;
use crate::division::Division;
use crate::division::DivisionV;
use crate::fu::fu_for_division;
use crate::fu::spec_fu_for_division;
use crate::meld::melds_view;
use crate::meld::no_open_calls;
use crate::meld::spec_no_open_calls;
use crate::tile::copy_tiles;
use crate::tile::ins_sorted;
use crate::tile::lemma_inserted_at;
use crate::tile::seq_contains_tile;
use crate::tile::seq_tile_le;
use crate::tile::sort_tiles;
use crate::tile::sort_tiles_spec;
use crate::tile::tile_key;
use crate::tile::tile_key_exec;
use crate::tile::tiles_le_exec;
use crate::tile::tiles_wf;
use crate::tile::Tile;
use crate::types::calls_wf;
use crate::types::fu_reason_index;
use crate::types::fu_reason_key;
use crate::types::han_reason_index;
use crate::types::han_reason_key;
use crate::types::Call;
use crate::types::FuReason;
use crate::types::HandContext;
use crate::types::HandContextV;
use crate::types::HanReason;
use crate::types::Yaku;
use crate::types::Yakuman;
use crate::yaku::spec_yaku_han_closed;
use crate::yaku::spec_yaku_han_open;
use crate::yaku::spec_yaku_in_hand;
use crate::yaku::spec_yakuman_in_hand;
use crate::yaku::yaku_in_hand;
use crate::yaku::yakuman_in_hand;
use vstd::prelude::*;

verus! {

/// One scored outcome: the groups of the augmented decomposition and the
/// tagged fu and han contributions.
#[derive(Debug)]
pub struct CalcResult {
    pub winning_tile: Tile,
    pub pair: Vec<Tile>,
    pub melds: Vec<Vec<Tile>>,
    pub remaining: Vec<Tile>,
    pub fu_reasons: Vec<(FuReason, u8)>,
    pub han_reasons: Vec<(HanReason, u8)>,
}

/// The mathematical value of a [`CalcResult`].
pub ghost struct CalcResultV {
    pub winning_tile: Tile,
    pub pair: Seq<Tile>,
    pub melds: Seq<Seq<Tile>>,
    pub remaining: Seq<Tile>,
    pub fu_reasons: Seq<(FuReason, u8)>,
    pub han_reasons: Seq<(HanReason, u8)>,
}

impl View for CalcResult {
    type V = CalcResultV;

    open spec fn view(&self) -> CalcResultV {
        CalcResultV {
            winning_tile: self.winning_tile,
            pair: self.pair@,
            melds: melds_view(self.melds@),
            remaining: self.remaining@,
            fu_reasons: self.fu_reasons@,
            han_reasons: self.han_reasons@,
        }
    }
}

/// The mathematical value of a list of results.
pub open spec fn results_view(s: Seq<CalcResult>) -> Seq<CalcResultV> {
    Seq::new(s.len(), |i: int| s[i]@)
}

// ---------------------------------------------------------------------------
// The total order on results.
// ---------------------------------------------------------------------------

/// Strict order on tile sequences.
pub open spec fn seq_tile_lt(a: Seq<Tile>, b: Seq<Tile>) -> bool {
    seq_tile_le(a, b) && !seq_tile_le(b, a)
}

/// Lexicographic order on meld lists.
pub open spec fn melds_le(a: Seq<Seq<Tile>>, b: Seq<Seq<Tile>>) -> bool
    decreases a.len(),
{
    if a.len() == 0 {
        true
    } else if b.len() == 0 {
        false
    } else if seq_tile_lt(a.first(), b.first()) {
        true
    } else if seq_tile_lt(b.first(), a.first()) {
        false
    } else {
        melds_le(a.drop_first(), b.drop_first())
    }
}

/// Strict order on meld lists.
pub open spec fn melds_lt(a: Seq<Seq<Tile>>, b: Seq<Seq<Tile>>) -> bool {
    melds_le(a, b) && !melds_le(b, a)
}

/// Strict order on tagged fu contributions: reason first, then value.
pub open spec fn fu_pair_lt(a: (FuReason, u8), b: (FuReason, u8)) -> bool {
    fu_reason_index(a.0) < fu_reason_index(b.0) || (fu_reason_index(a.0) == fu_reason_index(b.0)
        && a.1 < b.1)
}

/// Lexicographic order on tagged fu contribution lists.
pub open spec fn fu_seq_le(a: Seq<(FuReason, u8)>, b: Seq<(FuReason, u8)>) -> bool
    decreases a.len(),
{
    if a.len() == 0 {
        true
    } else if b.len() == 0 {
        false
    } else if fu_pair_lt(a.first(), b.first()) {
        true
    } else if fu_pair_lt(b.first(), a.first()) {
        false
    } else {
        fu_seq_le(a.drop_first(), b.drop_first())
    }
}

/// Strict order on tagged fu contribution lists.
pub open spec fn fu_seq_lt(a: Seq<(FuReason, u8)>, b: Seq<(FuReason, u8)>) -> bool {
    fu_seq_le(a, b) && !fu_seq_le(b, a)
}

/// Strict order on tagged han contributions: reason first, then value.
pub open spec fn han_pair_lt(a: (HanReason, u8), b: (HanReason, u8)) -> bool {
    han_reason_index(a.0) < han_reason_index(b.0) || (han_reason_index(a.0) == han_reason_index(
        b.0,
    ) && a.1 < b.1)
}

/// Lexicographic order on tagged han contribution lists.
pub open spec fn han_seq_le(a: Seq<(HanReason, u8)>, b: Seq<(HanReason, u8)>) -> bool
    decreases a.len(),
{
    if a.len() == 0 {
        true
    } else if b.len() == 0 {
        false
    } else if han_pair_lt(a.first(), b.first()) {
        true
    } else if han_pair_lt(b.first(), a.first()) {
        false
    } else {
        han_seq_le(a.drop_first(), b.drop_first())
    }
}

/// The total order on results: field-by-field lexicographic comparison of
/// winning tile, pair, melds, leftover, fu reasons, han reasons.
pub open spec fn calc_le(a: CalcResultV, b: CalcResultV) -> bool {
    if tile_key(a.winning_tile) < tile_key(b.winning_tile) {
        true
    } else if tile_key(b.winning_tile) < tile_key(a.winning_tile) {
        false
    } else if seq_tile_lt(a.pair, b.pair) {
        true
    } else if seq_tile_lt(b.pair, a.pair) {
        false
    } else if melds_lt(a.melds, b.melds) {
        true
    } else if melds_lt(b.melds, a.melds) {
        false
    } else if seq_tile_lt(a.remaining, b.remaining) {
        true
    } else if seq_tile_lt(b.remaining, a.remaining) {
        false
    } else if fu_seq_lt(a.fu_reasons, b.fu_reasons) {
        true
    } else if fu_seq_lt(b.fu_reasons, a.fu_reasons) {
        false
    } else {
        han_seq_le(a.han_reasons, b.han_reasons)
    }
}

/// The result order as a first-class relation.
pub open spec fn calc_le_fn() -> spec_fn(CalcResultV, CalcResultV) -> bool {
    |a: CalcResultV, b: CalcResultV| calc_le(a, b)
}

fn tiles_lt_exec(a: &Vec<Tile>, b: &Vec<Tile>) -> (r: bool)
    ensures
        r == seq_tile_lt(a@, b@),
{
    tiles_le_exec(a, b) && !tiles_le_exec(b, a)
}

fn melds_le_exec(a: &Vec<Vec<Tile>>, b: &Vec<Vec<Tile>>) -> (r: bool)
    ensures
        r == melds_le(melds_view(a@), melds_view(b@)),
{
    let ghost av = melds_view(a@);
    let ghost bv = melds_view(b@);
    let mut i: usize = 0;
    proof {
        assert(av.skip(0) =~= av);
        assert(bv.skip(0) =~= bv);
    }
    loop
        invariant
            i <= av.len(),
            i <= bv.len(),
            av == melds_view(a@),
            bv == melds_view(b@),
            melds_le(av, bv) == melds_le(av.skip(i as int), bv.skip(i as int)),
        decreases av.len() - i,
    {
        if i == a.len() {
            return true;
        }
        if i == b.len() {
            return false;
        }
        proof {
            assert(av.skip(i as int).drop_first() =~= av.skip(i + 1));
            assert(bv.skip(i as int).drop_first() =~= bv.skip(i + 1));
            assert(av.skip(i as int).first() == av[i as int]);
            assert(bv.skip(i as int).first() == bv[i as int]);
        }
        if tiles_lt_exec(&a[i], &b[i]) {
            return true;
        }
        if tiles_lt_exec(&b[i], &a[i]) {
            return false;
        }
        i = i + 1;
    }
}

fn melds_lt_exec(a: &Vec<Vec<Tile>>, b: &Vec<Vec<Tile>>) -> (r: bool)
    ensures
        r == melds_lt(melds_view(a@), melds_view(b@)),
{
    melds_le_exec(a, b) && !melds_le_exec(b, a)
}

fn fu_pair_lt_exec(a: &(FuReason, u8), b: &(FuReason, u8)) -> (r: bool)
    ensures
        r == fu_pair_lt(*a, *b),
{
    let ka = fu_reason_key(&a.0);
    let kb = fu_reason_key(&b.0);
    ka < kb || (ka == kb && a.1 < b.1)
}

fn fu_seq_le_exec(a: &Vec<(FuReason, u8)>, b: &Vec<(FuReason, u8)>) -> (r: bool)
    ensures
        r == fu_seq_le(a@, b@),
{
    let mut i: usize = 0;
    proof {
        assert(a@.skip(0) =~= a@);
        assert(b@.skip(0) =~= b@);
    }
    loop
        invariant
            i <= a@.len(),
            i <= b@.len(),
            fu_seq_le(a@, b@) == fu_seq_le(a@.skip(i as int), b@.skip(i as int)),
        decreases a@.len() - i,
    {
        if i == a.len() {
            return true;
        }
        if i == b.len() {
            return false;
        }
        proof {
            assert(a@.skip(i as int).drop_first() =~= a@.skip(i + 1));
            assert(b@.skip(i as int).drop_first() =~= b@.skip(i + 1));
            assert(a@.skip(i as int).first() == a@[i as int]);
            assert(b@.skip(i as int).first() == b@[i as int]);
        }
        if fu_pair_lt_exec(&a[i], &b[i]) {
            return true;
        }
        if fu_pair_lt_exec(&b[i], &a[i]) {
            return false;
        }
        i = i + 1;
    }
}

fn fu_seq_lt_exec(a: &Vec<(FuReason, u8)>, b: &Vec<(FuReason, u8)>) -> (r: bool)
    ensures
        r == fu_seq_lt(a@, b@),
{
    fu_seq_le_exec(a, b) && !fu_seq_le_exec(b, a)
}

fn han_pair_lt_exec(a: &(HanReason, u8), b: &(HanReason, u8)) -> (r: bool)
    ensures
        r == han_pair_lt(*a, *b),
{
    let ka = han_reason_key(&a.0);
    let kb = han_reason_key(&b.0);
    ka < kb || (ka == kb && a.1 < b.1)
}

fn han_seq_le_exec(a: &Vec<(HanReason, u8)>, b: &Vec<(HanReason, u8)>) -> (r: bool)
    ensures
        r == han_seq_le(a@, b@),
{
    let mut i: usize = 0;
    proof {
        assert(a@.skip(0) =~= a@);
        assert(b@.skip(0) =~= b@);
    }
    loop
        invariant
            i <= a@.len(),
            i <= b@.len(),
            han_seq_le(a@, b@) == han_seq_le(a@.skip(i as int), b@.skip(i as int)),
        decreases a@.len() - i,
    {
        if i == a.len() {
            return true;
        }
        if i == b.len() {
            return false;
        }
        proof {
            assert(a@.skip(i as int).drop_first() =~= a@.skip(i + 1));
            assert(b@.skip(i as int).drop_first() =~= b@.skip(i + 1));
            assert(a@.skip(i as int).first() == a@[i as int]);
            assert(b@.skip(i as int).first() == b@[i as int]);
        }
        if han_pair_lt_exec(&a[i], &b[i]) {
            return true;
        }
        if han_pair_lt_exec(&b[i], &a[i]) {
            return false;
        }
        i = i + 1;
    }
}

fn calc_le_exec(a: &CalcResult, b: &CalcResult) -> (r: bool)
    ensures
        r == calc_le(a@, b@),
{
    let ka = tile_key_exec(&a.winning_tile);
    let kb = tile_key_exec(&b.winning_tile);
    if ka < kb {
        return true;
    }
    if kb < ka {
        return false;
    }
    if tiles_lt_exec(&a.pair, &b.pair) {
        return true;
    }
    if tiles_lt_exec(&b.pair, &a.pair) {
        return false;
    }
    if melds_lt_exec(&a.melds, &b.melds) {
        return true;
    }
    if melds_lt_exec(&b.melds, &a.melds) {
        return false;
    }
    if tiles_lt_exec(&a.remaining, &b.remaining) {
        return true;
    }
    if tiles_lt_exec(&b.remaining, &a.remaining) {
        return false;
    }
    if fu_seq_lt_exec(&a.fu_reasons, &b.fu_reasons) {
        return true;
    }
    if fu_seq_lt_exec(&b.fu_reasons, &a.fu_reasons) {
        return false;
    }
    han_seq_le_exec(&a.han_reasons, &b.han_reasons)
}

/// Finds the insertion position that `inserted` uses, scanning from the end.
fn calc_insert_pos(out: &Vec<CalcResult>, c: &CalcResult) -> (j: usize)
    ensures
        j <= out@.len(),
        forall|k: int|
            j <= k < out@.len() ==> !calc_le_fn()(#[trigger] results_view(out@)[k], c@),
        j > 0 ==> calc_le_fn()(results_view(out@)[j - 1], c@),
{
    let mut j: usize = out.len();
    let mut scanning = true;
    while scanning
        invariant
            j <= out@.len(),
            forall|k: int|
                j <= k < out@.len() ==> !calc_le_fn()(#[trigger] results_view(out@)[k], c@),
            !scanning ==> (j == 0 || calc_le_fn()(results_view(out@)[j - 1], c@)),
        decreases j + if scanning { 1int } else { 0int },
    {
        if j == 0 {
            scanning = false;
        } else if calc_le_exec(&out[j - 1], c) {
            scanning = false;
        } else {
            j = j - 1;
        }
    }
    j
}

/// Sorts results into the deterministic total order, consuming the input.
fn sort_results(results: Vec<CalcResult>) -> (r: Vec<CalcResult>)
    ensures
        results_view(r@) == ins_sorted(results_view(results@), calc_le_fn()),
{
    let ghost input = results_view(results@);
    let mut rest = results;
    let mut out: Vec<CalcResult> = Vec::new();
    proof {
        assert(input.skip(0) =~= input);
        assert(results_view(out@) =~= ins_sorted(input.take(0), calc_le_fn()));
    }
    while rest.len() > 0
        invariant
            rest@.len() <= input.len(),
            results_view(rest@) == input.skip(input.len() - rest@.len()),
            results_view(out@) == ins_sorted(
                input.take(input.len() - rest@.len()),
                calc_le_fn(),
            ),
        decreases rest@.len(),
    {
        let ghost i = input.len() - rest@.len();
        proof {
            assert(results_view(rest@)[0] == input.skip(i)[0]);
            assert(input.skip(i)[0] == input[i]);
        }
        let ghost before = rest@;
        let c = rest.remove(0);
        proof {
            assert(rest@ =~= before.drop_first());
            assert forall|k: int| 0 <= k < rest@.len() implies results_view(rest@)[k] == input.skip(
                i + 1,
            )[k] by {
                assert(rest@[k] == before[k + 1]);
                assert(results_view(before)[k + 1] == input.skip(i)[k + 1]);
                assert(input.skip(i)[k + 1] == input.skip(i + 1)[k]);
            }
            assert(results_view(rest@) =~= input.skip(i + 1));
            assert(c@ == input[i]);
        }
        let j = calc_insert_pos(&out, &c);
        proof {
            lemma_inserted_at(results_view(out@), c@, calc_le_fn(), j as int);
            assert(input.take(i + 1).drop_last() =~= input.take(i));
            assert(input.take(i + 1).last() == input[i]);
        }
        let ghost oldv = results_view(out@);
        out.insert(j, c);
        proof {
            assert(results_view(out@) =~= oldv.subrange(0, j as int) + seq![input[i]]
                + oldv.subrange(j as int, oldv.len() as int));
        }
    }
    proof {
        assert(input.take(input.len() as int) =~= input);
    }
    out
}

// ---------------------------------------------------------------------------
// Han aggregation.
// ---------------------------------------------------------------------------

/// The summed values of a tagged han contribution list.
pub open spec fn han_total(rs: Seq<(HanReason, u8)>) -> int
    decreases rs.len(),
{
    if rs.len() == 0 {
        0
    } else {
        han_total(rs.drop_last()) + rs.last().1
    }
}

/// Sums distribute over concatenation.
pub proof fn lemma_han_total_concat(a: Seq<(HanReason, u8)>, b: Seq<(HanReason, u8)>)
    ensures
        han_total(a + b) == han_total(a) + han_total(b),
    decreases b.len(),
{
    if b.len() == 0 {
        assert(a + b =~= a);
    } else {
        lemma_han_total_concat(a, b.drop_last());
        assert((a + b).drop_last() =~= a + b.drop_last());
    }
}

/// A push adds its value to the sum.
pub proof fn lemma_han_total_push(s: Seq<(HanReason, u8)>, x: (HanReason, u8))
    ensures
        han_total(s.push(x)) == han_total(s) + x.1,
{
    assert(s.push(x).drop_last() =~= s);
    assert(s.push(x).last() == x);
}

/// `n` unit contributions under one label.
pub open spec fn repeat_entry(r: HanReason, n: nat) -> Seq<(HanReason, u8)> {
    Seq::new(n, |i: int| (r, 1u8))
}

/// `n` unit contributions sum to `n`.
pub proof fn lemma_repeat_total(r: HanReason, n: nat)
    ensures
        han_total(repeat_entry(r, n)) == n,
    decreases n,
{
    if n > 0 {
        lemma_repeat_total(r, (n - 1) as nat);
        assert(repeat_entry(r, n).drop_last() =~= repeat_entry(r, (n - 1) as nat));
    }
}

/// One thirteen-unit contribution per matched yakuman.
pub open spec fn yakuman_entries(ms: Seq<Yakuman>) -> Seq<(HanReason, u8)>
    decreases ms.len(),
{
    if ms.len() == 0 {
        Seq::empty()
    } else {
        yakuman_entries(ms.drop_last()).push((HanReason::Yakuman(ms.last()), 13u8))
    }
}

/// Yakuman entries sum to thirteen per pattern.
pub proof fn lemma_yakuman_entries_total(ms: Seq<Yakuman>)
    ensures
        0 <= han_total(yakuman_entries(ms)) <= 13 * ms.len(),
    decreases ms.len(),
{
    if ms.len() > 0 {
        lemma_yakuman_entries_total(ms.drop_last());
        lemma_han_total_push(yakuman_entries(ms.drop_last()), (HanReason::Yakuman(ms.last()), 13u8));
        assert(13 * ms.len() == 13 * (ms.len() - 1) + 13) by (nonlinear_arith);
    }
}

/// One contribution per matched yaku, at its closed or open value, with one
/// extra unit when a wind pattern matches both the round and the seat wind.
pub open spec fn yaku_entries(ys: Seq<Yaku>, closed: bool, ctx: HandContextV) -> Seq<
    (HanReason, u8),
>
    decreases ys.len(),
{
    if ys.len() == 0 {
        Seq::empty()
    } else {
        let rest = yaku_entries(ys.drop_last(), closed, ctx);
        let y = ys.last();
        let base = rest.push(
            (
                HanReason::Yaku(y),
                if closed {
                    spec_yaku_han_closed(y)
                } else {
                    spec_yaku_han_open(y)
                },
            ),
        );
        if ctx.round_wind == ctx.player_wind && (y == Yaku::Ton || y == Yaku::Nan || y == Yaku::Sha
            || y == Yaku::Pei) {
            base.push((HanReason::Yaku(y), 1u8))
        } else {
            base
        }
    }
}

/// Yaku entries sum to at most seven per pattern (six for the largest value,
/// one more for a doubled wind).
pub proof fn lemma_yaku_entries_total(ys: Seq<Yaku>, closed: bool, ctx: HandContextV)
    ensures
        0 <= han_total(yaku_entries(ys, closed, ctx)) <= 7 * ys.len(),
    decreases ys.len(),
{
    if ys.len() > 0 {
        lemma_yaku_entries_total(ys.drop_last(), closed, ctx);
        let rest = yaku_entries(ys.drop_last(), closed, ctx);
        let y = ys.last();
        let v: u8 = if closed {
            spec_yaku_han_closed(y)
        } else {
            spec_yaku_han_open(y)
        };
        lemma_han_total_push(rest, (HanReason::Yaku(y), v));
        lemma_han_total_push(rest.push((HanReason::Yaku(y), v)), (HanReason::Yaku(y), 1u8));
        assert(v <= 6);
        assert(7 * ys.len() == 7 * (ys.len() - 1) + 7) by (nonlinear_arith);
    }
}

/// Every han contribution of a decomposition: the matched yakuman, then the
/// matched yaku (each with its wind double, where earned), then one unit per
/// bonus tile of each of the three classes.
pub open spec fn spec_han_for_division(d: DivisionV, calls: Seq<Call>, ctx: HandContextV) -> Seq<
    (HanReason, u8),
> {
    yakuman_entries(spec_yakuman_in_hand(d, calls, ctx)) + yaku_entries(
        spec_yaku_in_hand(d, calls, ctx),
        spec_no_open_calls(calls),
        ctx,
    ) + repeat_entry(HanReason::Yaku(Yaku::Dora), ctx.n_dora as nat) + repeat_entry(
        HanReason::Yaku(Yaku::Akadora),
        ctx.n_akadora as nat,
    ) + repeat_entry(HanReason::Yaku(Yaku::Uradora), ctx.n_uradora as nat)
}

/// Computes every han contribution of one augmented decomposition.
fn han_for_division(division: &Division, calls: &Vec<Call>, context: &HandContext) -> (r: Vec<
    (HanReason, u8),
>)
    requires
        div_wf(division@),
        calls_wf(calls@),
    ensures
        r@ == spec_han_for_division(division@, calls@, context@),
{
    let hand_is_closed = no_open_calls(calls);
    let mut reasons: Vec<(HanReason, u8)> = Vec::new();

    let ykm = yakuman_in_hand(division, calls, context);
    let mut i: usize = 0;
    while i < ykm.len()
        invariant
            i <= ykm@.len(),
            ykm@ == spec_yakuman_in_hand(division@, calls@, context@),
            forall|k: int|
                0 <= k < ykm@.len() ==> crate::yaku::yakuman_in_table(#[trigger] ykm@[k]),
            hand_is_closed == spec_no_open_calls(calls@),
            reasons@ == yakuman_entries(ykm@.take(i as int)),
        decreases ykm@.len() - i,
    {
        proof {
            assert(ykm@.take(i + 1).drop_last() =~= ykm@.take(i as int));
        }
        let v = if hand_is_closed {
            ykm[i].han_closed()
        } else {
            ykm[i].han_open()
        };
        reasons.push((HanReason::Yakuman(ykm[i]), v));
        i = i + 1;
    }
    proof {
        assert(ykm@.take(ykm@.len() as int) =~= ykm@);
    }
    let ghost head0 = yakuman_entries(spec_yakuman_in_hand(division@, calls@, context@));

    let ys = yaku_in_hand(division, calls, context);
    let mut j: usize = 0;
    while j < ys.len()
        invariant
            j <= ys@.len(),
            ys@ == spec_yaku_in_hand(division@, calls@, context@),
            forall|k: int|
                0 <= k < ys@.len() ==> crate::yaku::yaku_in_table(#[trigger] ys@[k]),
            hand_is_closed == spec_no_open_calls(calls@),
            head0 == yakuman_entries(spec_yakuman_in_hand(division@, calls@, context@)),
            reasons@ == head0 + yaku_entries(ys@.take(j as int), hand_is_closed, context@),
        decreases ys@.len() - j,
    {
        proof {
            assert(ys@.take(j + 1).drop_last() =~= ys@.take(j as int));
        }
        let y = ys[j];
        let v = if hand_is_closed {
            y.han_closed()
        } else {
            y.han_open()
        };
        reasons.push((HanReason::Yaku(y), v));
        if context.round_wind == context.player_wind && y.is_wind() {
            reasons.push((HanReason::Yaku(y), 1));
        }
        j = j + 1;
    }
    proof {
        assert(ys@.take(ys@.len() as int) =~= ys@);
    }
    let ghost head1 = head0 + yaku_entries(
        spec_yaku_in_hand(division@, calls@, context@),
        spec_no_open_calls(calls@),
        context@,
    );

    let mut k: u8 = 0;
    while k < context.n_dora
        invariant
            k <= context@.n_dora,
            reasons@ == head1 + repeat_entry(HanReason::Yaku(Yaku::Dora), k as nat),
        decreases context@.n_dora - k,
    {
        reasons.push((HanReason::Yaku(Yaku::Dora), 1));
        proof {
            assert(reasons@ =~= head1 + repeat_entry(HanReason::Yaku(Yaku::Dora), (k + 1) as nat));
        }
        k = k + 1;
    }
    let ghost head2 = head1 + repeat_entry(HanReason::Yaku(Yaku::Dora), context@.n_dora as nat);
    proof {
        assert(reasons@ == head2);
    }
    let mut k2: u8 = 0;
    while k2 < context.n_akadora
        invariant
            k2 <= context@.n_akadora,
            reasons@ == head2 + repeat_entry(HanReason::Yaku(Yaku::Akadora), k2 as nat),
        decreases context@.n_akadora - k2,
    {
        reasons.push((HanReason::Yaku(Yaku::Akadora), 1));
        proof {
            assert(reasons@ =~= head2 + repeat_entry(
                HanReason::Yaku(Yaku::Akadora),
                (k2 + 1) as nat,
            ));
        }
        k2 = k2 + 1;
    }
    let ghost head3 = head2 + repeat_entry(
        HanReason::Yaku(Yaku::Akadora),
        context@.n_akadora as nat,
    );
    proof {
        assert(reasons@ == head3);
    }
    let mut k3: u8 = 0;
    while k3 < context.n_uradora
        invariant
            k3 <= context@.n_uradora,
            reasons@ == head3 + repeat_entry(HanReason::Yaku(Yaku::Uradora), k3 as nat),
        decreases context@.n_uradora - k3,
    {
        reasons.push((HanReason::Yaku(Yaku::Uradora), 1));
        proof {
            assert(reasons@ =~= head3 + repeat_entry(
                HanReason::Yaku(Yaku::Uradora),
                (k3 + 1) as nat,
            ));
        }
        k3 = k3 + 1;
    }
    proof {
        assert(reasons@ =~= spec_han_for_division(division@, calls@, context@));
    }
    reasons
}

// ---------------------------------------------------------------------------
// Per-decomposition scoring.
// ---------------------------------------------------------------------------

/// The fu list is that of the no-bonus shape: nothing besides the base, the
/// closed discard-win bonus and the final round-up.
pub open spec fn spec_is_pinfu(rs: Seq<(FuReason, u8)>) -> bool {
    forall|i: int|
        0 <= i < rs.len() ==> ((#[trigger] rs[i]).0 == FuReason::Base || rs[i].0
            == FuReason::ClosedRon || rs[i].0 == FuReason::RoundUp)
}

fn is_pinfu(fu_reasons: &Vec<(FuReason, u8)>) -> (r: bool)
    ensures
        r == spec_is_pinfu(fu_reasons@),
{
    let mut i: usize = 0;
    while i < fu_reasons.len()
        invariant
            i <= fu_reasons@.len(),
            forall|k: int|
                0 <= k < i ==> ((#[trigger] fu_reasons@[k]).0 == FuReason::Base || fu_reasons@[k].0
                    == FuReason::ClosedRon || fu_reasons@[k].0 == FuReason::RoundUp),
        decreases fu_reasons@.len() - i,
    {
        let (reason, _) = fu_reasons[i];
        if !(reason == FuReason::Base || reason == FuReason::ClosedRon || reason
            == FuReason::RoundUp) {
            return false;
        }
        i = i + 1;
    }
    true
}

/// The scored outcome of one decomposition: its fu, then its han against the
/// augmented decomposition in which the winning tile has completed the wait
/// group (a new pair on a single-tile wait, a new meld otherwise), with the
/// no-bonus-shape pattern added when the fu list shows it.
pub open spec fn spec_calculate_division(d: DivisionV, calls: Seq<Call>, ctx: HandContextV) ->
    CalcResultV {
    let fu = spec_fu_for_division(d, calls, ctx);
    let wm_base = if d.pair.len() != 2 {
        d.pair
    } else {
        d.remaining
    };
    let wm = sort_tiles_spec(wm_base.push(ctx.winning_tile));
    let ctx2 = HandContextV { winning_meld: wm, ..ctx };
    let d2 = if d.pair.len() != 2 {
        DivisionV { pair: wm, melds: d.melds, remaining: Seq::empty() }
    } else {
        DivisionV { pair: d.pair, melds: d.melds.push(wm), remaining: Seq::empty() }
    };
    let han0 = spec_han_for_division(d2, calls, ctx2);
    let han = if spec_is_pinfu(fu) {
        han0.push((HanReason::Yaku(Yaku::Pinfu), 1u8))
    } else {
        han0
    };
    CalcResultV {
        winning_tile: ctx.winning_tile,
        pair: d2.pair,
        melds: d2.melds,
        remaining: Seq::empty(),
        fu_reasons: fu,
        han_reasons: han,
    }
}

fn calculate_division(division: &Division, calls: &Vec<Call>, context: &HandContext) -> (r:
    CalcResult)
    requires
        div_wf(division@),
        calls_wf(calls@),
        context@.winning_tile.wf(),
        division@.melds.len() + calls@.len() <= 4,
    ensures
        r@ == spec_calculate_division(division@, calls@, context@),
{
    let fu_reasons = fu_for_division(division, calls, context);

    // Insert the winning tile into the group it completes: the pair slot on a
    // single-tile wait, the leftover wait shape otherwise.
    let mut con = context.clone();
    let mut div = division.clone();

    let mut wm = if division.pair.len() != 2 {
        copy_tiles(&division.pair)
    } else {
        copy_tiles(&division.remaining)
    };
    wm.push(context.winning_tile);
    let winning_meld = sort_tiles(&wm);
    con.winning_meld = copy_tiles(&winning_meld);

    let ghost wmv = sort_tiles_spec(
        (if division@.pair.len() != 2 {
            division@.pair
        } else {
            division@.remaining
        }).push(context@.winning_tile),
    );
    proof {
        assert(winning_meld@ == wmv);
        assert(con@ == (HandContextV { winning_meld: wmv, ..context@ }));
    }

    if division.pair.len() != 2 {
        div.pair = copy_tiles(&winning_meld);
    } else {
        div.melds.push(copy_tiles(&winning_meld));
    }
    div.remaining = Vec::new();
    let ghost d2 = if division@.pair.len() != 2 {
        DivisionV { pair: wmv, melds: division@.melds, remaining: Seq::empty() }
    } else {
        DivisionV { pair: division@.pair, melds: division@.melds.push(wmv), remaining: Seq::empty() }
    };
    proof {
        assert(melds_view(div.melds@) =~= d2.melds);
        assert(div@ == d2);
        assert(tiles_wf(wmv));
        assert(div_wf(div@));
    }

    let mut han_reasons = han_for_division(&div, calls, &con);
    if is_pinfu(&fu_reasons) {
        let v = Yaku::Pinfu.han_closed();
        proof {
            assert(v == 1);
        }
        han_reasons.push((HanReason::Yaku(Yaku::Pinfu), v));
    }

    let r = CalcResult {
        winning_tile: context.winning_tile,
        pair: div.pair,
        melds: div.melds,
        remaining: div.remaining,
        fu_reasons,
        han_reasons,
    };
    proof {
        assert(r@ == spec_calculate_division(division@, calls@, context@));
    }
    r
}

// ---------------------------------------------------------------------------
// The two whole-hand special shapes.
// ---------------------------------------------------------------------------

/// The all-pairs outcome, when the flat fourteen-tile hand is seven distinct
/// pairs: a fixed 25-fu entry and the context's han contributions.
pub open spec fn spec_check_chiitoi(tiles: Seq<Tile>, calls: Seq<Call>, ctx: HandContextV) ->
    Option<CalcResultV> {
    let remaining = tiles.push(ctx.winning_tile);
    let d = DivisionV { pair: Seq::empty(), melds: Seq::empty(), remaining };
    if crate::yaku::spec_has_chiitoi(d) {
        Some(
            CalcResultV {
                winning_tile: ctx.winning_tile,
                pair: Seq::empty(),
                melds: Seq::empty(),
                remaining,
                fu_reasons: seq![(FuReason::Chiitoitsu, 25u8)],
                han_reasons: spec_han_for_division(d, calls, ctx),
            },
        )
    } else {
        None
    }
}

fn check_chiitoi(tiles: &Vec<Tile>, calls: &Vec<Call>, context: &HandContext) -> (r: Option<
    CalcResult,
>)
    requires
        tiles_wf(tiles@),
        calls_wf(calls@),
        context@.winning_tile.wf(),
    ensures
        match spec_check_chiitoi(tiles@, calls@, context@) {
            Some(cv) => r is Some && r->Some_0@ == cv,
            None => r is None,
        },
{
    let mut remaining = copy_tiles(tiles);
    remaining.push(context.winning_tile);
    let division = Division { pair: Vec::new(), melds: Vec::new(), remaining };
    proof {
        assert(melds_view(division.melds@) =~= Seq::<Seq<Tile>>::empty());
        assert(div_wf(division@));
    }
    if crate::yaku::has_chiitoi(&division, calls, context) {
        let han_reasons = han_for_division(&division, calls, context);
        let fu_reasons = vec![(FuReason::Chiitoitsu, 25u8)];
        proof {
            assert(fu_reasons@ =~= seq![(FuReason::Chiitoitsu, 25u8)]);
        }
        Some(
            CalcResult {
                winning_tile: context.winning_tile,
                pair: division.pair,
                melds: division.melds,
                remaining: division.remaining,
                fu_reasons,
                han_reasons,
            },
        )
    } else {
        None
    }
}

/// The thirteen-terminals-and-honours outcome: no fu entries, one fixed
/// thirteen-unit contribution.
pub open spec fn spec_check_kokushi(tiles: Seq<Tile>, calls: Seq<Call>, ctx: HandContextV) ->
    Option<CalcResultV> {
    let remaining = tiles.push(ctx.winning_tile);
    let d = DivisionV { pair: Seq::empty(), melds: Seq::empty(), remaining };
    if crate::yaku::spec_has_kokushi(d) {
        Some(
            CalcResultV {
                winning_tile: ctx.winning_tile,
                pair: Seq::empty(),
                melds: Seq::empty(),
                remaining,
                fu_reasons: Seq::empty(),
                han_reasons: seq![(HanReason::Yakuman(Yakuman::KokushiMusou), 13u8)],
            },
        )
    } else {
        None
    }
}

fn check_kokushi(tiles: &Vec<Tile>, calls: &Vec<Call>, context: &HandContext) -> (r: Option<
    CalcResult,
>)
    requires
        tiles_wf(tiles@),
        calls_wf(calls@),
        context@.winning_tile.wf(),
    ensures
        match spec_check_kokushi(tiles@, calls@, context@) {
            Some(cv) => r is Some && r->Some_0@ == cv,
            None => r is None,
        },
{
    let mut remaining = copy_tiles(tiles);
    remaining.push(context.winning_tile);
    let division = Division { pair: Vec::new(), melds: Vec::new(), remaining };
    proof {
        assert(melds_view(division.melds@) =~= Seq::<Seq<Tile>>::empty());
    }
    if crate::yaku::has_kokushi(&division, calls, context) {
        let han_reasons = vec![(HanReason::Yakuman(Yakuman::KokushiMusou), 13u8)];
        proof {
            assert(han_reasons@ =~= seq![(HanReason::Yakuman(Yakuman::KokushiMusou), 13u8)]);
        }
        Some(
            CalcResult {
                winning_tile: context.winning_tile,
                pair: division.pair,
                melds: division.melds,
                remaining: division.remaining,
                fu_reasons: Vec::new(),
                han_reasons,
            },
        )
    } else {
        None
    }
}

// ---------------------------------------------------------------------------
// The full pipeline.
// ---------------------------------------------------------------------------

/// The scored outcomes of the decompositions that are one tile from
/// completion and whose wait set holds the winning tile, in enumeration
/// order.
pub open spec fn spec_qualifying_results(
    divs: Seq<DivisionV>,
    calls: Seq<Call>,
    ctx: HandContextV,
) -> Seq<CalcResultV>
    decreases divs.len(),
{
    if divs.len() == 0 {
        Seq::empty()
    } else {
        let rest = spec_qualifying_results(divs.drop_last(), calls, ctx);
        let d = divs.last();
        if spec_is_tenpai(d, calls.len() as int) && seq_contains_tile(
            spec_waits(d),
            ctx.winning_tile,
        ) {
            rest.push(spec_calculate_division(d, calls, ctx))
        } else {
            rest
        }
    }
}

/// Every scored outcome of the hand: the qualifying decompositions' results
/// in the deterministic total order, then the all-pairs outcome, then the
/// thirteen-terminals outcome, where those shapes hold.
pub open spec fn spec_calculate(tiles: Seq<Tile>, calls: Seq<Call>, ctx: HandContextV) -> Seq<
    CalcResultV,
> {
    let sorted = ins_sorted(
        spec_qualifying_results(spec_divide(tiles), calls, ctx),
        calc_le_fn(),
    );
    let with_chiitoi = match spec_check_chiitoi(tiles, calls, ctx) {
        Some(c) => sorted.push(c),
        None => sorted,
    };
    match spec_check_kokushi(tiles, calls, ctx) {
        Some(c) => with_chiitoi.push(c),
        None => with_chiitoi,
    }
}

/// Calculates fu and han for all winning hand configurations: every
/// decomposition of the concealed tiles that completes on the winning tile
/// yields one result, ordered deterministically; the two whole-hand special
/// shapes append their own results.
pub fn calculate(tiles: &Vec<Tile>, calls: &Vec<Call>, context: &HandContext) -> (r: Vec<
    CalcResult,
>)
    requires
        tiles_wf(tiles@),
        tiles@.len() <= 14,
        calls_wf(calls@),
        context@.winning_tile.wf(),
    ensures
        results_view(r@) == spec_calculate(tiles@, calls@, context@),
{
    let divisions = divide(tiles);
    let ghost dv = divs_view(divisions@);
    let mut picked: Vec<CalcResult> = Vec::new();
    let mut i: usize = 0;
    while i < divisions.len()
        invariant
            i <= divisions@.len(),
            dv == divs_view(divisions@),
            dv == spec_divide(tiles@),
            forall|k: int| 0 <= k < divisions@.len() ==> div_wf(#[trigger] divisions@[k]@),
            calls_wf(calls@),
            context@.winning_tile.wf(),
            results_view(picked@) == spec_qualifying_results(
                dv.take(i as int),
                calls@,
                context@,
            ),
        decreases divisions@.len() - i,
    {
        proof {
            assert(dv.take(i + 1).drop_last() =~= dv.take(i as int));
            assert(dv.take(i + 1).last() == divisions@[i as int]@);
        }
        let d = &divisions[i];
        if d.is_tenpai(calls.len()) {
            if d.wins_on(&context.winning_tile) {
                proof {
                    assert(d@.melds.len() + calls@.len() <= 4);
                }
                let c = calculate_division(d, calls, context);
                picked.push(c);
                proof {
                    assert(results_view(picked@) =~= spec_qualifying_results(
                        dv.take(i + 1),
                        calls@,
                        context@,
                    ));
                }
            }
        }
        i = i + 1;
    }
    proof {
        assert(dv.take(dv.len() as int) =~= dv);
    }

    let mut results = sort_results(picked);
    match check_chiitoi(tiles, calls, context) {
        Some(c) => {
            let ghost r0 = results_view(results@);
            results.push(c);
            proof {
                assert(results_view(results@) =~= r0.push(
                    spec_check_chiitoi(tiles@, calls@, context@)->Some_0,
                ));
            }
        },
        None => {},
    }
    match check_kokushi(tiles, calls, context) {
        Some(c) => {
            let ghost r1 = results_view(results@);
            results.push(c);
            proof {
                assert(results_view(results@) =~= r1.push(
                    spec_check_kokushi(tiles@, calls@, context@)->Some_0,
                ));
            }
        },
        None => {},
    }
    results
}

} // verus!
