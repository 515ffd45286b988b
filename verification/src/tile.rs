//! The tile type, its classification queries, its total order, and helpers
//! over lists of tiles (counting, removal, sorting, text notation).

use vstd::prelude::*;
use vstd::string::StrSliceExecFns;
use vstd::string::StringExecFns;

verus! {

/// One of the three numbered suits, or the honour group.
#[derive(Clone, Copy, Debug, PartialEq, Eq, PartialOrd, Ord, Hash, Structural)]
pub enum Suit {
    Man,
    Pin,
    Sou,
    Hon,
}

/// A single game tile: a suit and a rank.
///
/// Ranks run 1 to 9 in the numbered suits; in the honour group ranks 1 to 4
/// are the winds and 5 to 7 are the dragons.
#[derive(Clone, Copy, Debug, PartialEq, Eq, PartialOrd, Ord, Hash, Structural)]
pub struct Tile {
    pub suit: Suit,
    pub number: u8,
}

/// Index of a suit in the fixed suit precedence Man < Pin < Sou < Hon.
pub open spec fn suit_index(s: Suit) -> int {
    match s {
        Suit::Man => 0,
        Suit::Pin => 1,
        Suit::Sou => 2,
        Suit::Hon => 3,
    }
}

/// Total order key for tiles: suit precedence first, then rank.
pub open spec fn tile_key(t: Tile) -> int {
    suit_index(t.suit) * 16 + t.number
}

/// The total order on tiles (by suit, then rank).
pub open spec fn tile_le(a: Tile, b: Tile) -> bool {
    tile_key(a) <= tile_key(b)
}

impl Tile {
    /// A structurally valid tile: rank within its suit's range.
    pub open spec fn wf(self) -> bool {
        match self.suit {
            Suit::Man | Suit::Pin | Suit::Sou => 1 <= self.number <= 9,
            Suit::Hon => 1 <= self.number <= 7,
        }
    }

    pub open spec fn spec_is_man(&self) -> bool {
        self.suit == Suit::Man
    }

    pub open spec fn spec_is_pin(&self) -> bool {
        self.suit == Suit::Pin
    }

    pub open spec fn spec_is_sou(&self) -> bool {
        self.suit == Suit::Sou
    }

    pub open spec fn spec_is_number(&self) -> bool {
        self.suit == Suit::Man || self.suit == Suit::Pin || self.suit == Suit::Sou
    }

    pub open spec fn spec_is_honour(&self) -> bool {
        self.suit == Suit::Hon
    }

    pub open spec fn spec_is_wind(&self) -> bool {
        self.suit == Suit::Hon && self.number <= 4
    }

    pub open spec fn spec_is_colour(&self) -> bool {
        self.suit == Suit::Hon && self.number >= 5
    }

    pub open spec fn spec_is_terminal(&self) -> bool {
        self.spec_is_number() && (self.number == 1 || self.number == 9)
    }

    pub open spec fn spec_is_simple(&self) -> bool {
        self.spec_is_number() && !self.spec_is_terminal()
    }

    pub fn number(&self) -> (n: u8)
        ensures
            n == self.number,
    {
        self.number
    }

    #[verifier::when_used_as_spec(spec_is_man)]
    pub fn is_man(&self) -> (r: bool)
        ensures
            r == self.spec_is_man(),
    {
        self.suit == Suit::Man
    }

    #[verifier::when_used_as_spec(spec_is_pin)]
    pub fn is_pin(&self) -> (r: bool)
        ensures
            r == self.spec_is_pin(),
    {
        self.suit == Suit::Pin
    }

    #[verifier::when_used_as_spec(spec_is_sou)]
    pub fn is_sou(&self) -> (r: bool)
        ensures
            r == self.spec_is_sou(),
    {
        self.suit == Suit::Sou
    }

    #[verifier::when_used_as_spec(spec_is_wind)]
    pub fn is_wind(&self) -> (r: bool)
        ensures
            r == self.spec_is_wind(),
    {
        self.suit == Suit::Hon && self.number <= 4
    }

    #[verifier::when_used_as_spec(spec_is_colour)]
    pub fn is_colour(&self) -> (r: bool)
        ensures
            r == self.spec_is_colour(),
    {
        self.suit == Suit::Hon && self.number >= 5
    }

    #[verifier::when_used_as_spec(spec_is_number)]
    pub fn is_number(&self) -> (r: bool)
        ensures
            r == self.spec_is_number(),
    {
        self.is_man() || self.is_pin() || self.is_sou()
    }

    #[verifier::when_used_as_spec(spec_is_honour)]
    pub fn is_honour(&self) -> (r: bool)
        ensures
            r == self.spec_is_honour(),
    {
        self.suit == Suit::Hon
    }

    #[verifier::when_used_as_spec(spec_is_terminal)]
    pub fn is_terminal(&self) -> (r: bool)
        ensures
            r == self.spec_is_terminal(),
    {
        self.is_number() && (self.number == 1 || self.number == 9)
    }

    #[verifier::when_used_as_spec(spec_is_simple)]
    pub fn is_simple(&self) -> (r: bool)
        ensures
            r == self.spec_is_simple(),
    {
        self.is_number() && !self.is_terminal()
    }

    /// There is a next tile in the same suit: the tile is valid and not the
    /// last rank of its suit.
    pub open spec fn spec_has_next(self) -> bool {
        self.wf() && match self.suit {
            Suit::Man | Suit::Pin | Suit::Sou => self.number < 9,
            Suit::Hon => self.number != 4 && self.number != 7,
        }
    }

    pub open spec fn spec_next(self) -> Tile {
        Tile { suit: self.suit, number: (self.number + 1) as u8 }
    }

    /// The next tile in the ordering, within the same suit.  Defined only
    /// strictly inside the suit's rank range.
    pub fn next(&self) -> (r: Tile)
        requires
            self.spec_has_next(),
        ensures
            r == self.spec_next(),
            r.wf(),
    {
        Tile { suit: self.suit, number: self.number + 1 }
    }

    /// There is a previous tile in the same suit: the tile is valid and not
    /// the first rank of its suit (winds end at 4, dragons start at 5).
    pub open spec fn spec_has_prev(self) -> bool {
        self.wf() && match self.suit {
            Suit::Man | Suit::Pin | Suit::Sou => self.number > 1,
            Suit::Hon => self.number != 1 && self.number != 5,
        }
    }

    pub open spec fn spec_prev(self) -> Tile {
        Tile { suit: self.suit, number: (self.number - 1) as u8 }
    }

    /// The previous tile in the ordering, within the same suit.  Defined only
    /// strictly inside the suit's rank range.
    pub fn prev(&self) -> (r: Tile)
        requires
            self.spec_has_prev(),
        ensures
            r == self.spec_prev(),
            r.wf(),
    {
        Tile { suit: self.suit, number: self.number - 1 }
    }
}

impl Default for Tile {
    /// The default tile is the first wind.
    fn default() -> (r: Tile)
        ensures
            r == (Tile { suit: Suit::Hon, number: 1 }),
    {
        Tile { suit: Suit::Hon, number: 1 }
    }
}

/// Every tile of the sequence is structurally valid.
pub open spec fn tiles_wf(s: Seq<Tile>) -> bool {
    forall|i: int| 0 <= i < s.len() ==> (#[trigger] s[i]).wf()
}

/// How many times tile `t` occurs in `s`.
pub open spec fn count_of(s: Seq<Tile>, t: Tile) -> nat
    decreases s.len(),
{
    if s.len() == 0 {
        0
    } else {
        count_of(s.drop_last(), t) + if s.last() == t {
            1nat
        } else {
            0nat
        }
    }
}

/// Counts the copies of `t` in `tiles`.
pub fn count_tile(tiles: &Vec<Tile>, t: Tile) -> (n: usize)
    ensures
        n == count_of(tiles@, t),
{
    let mut n: usize = 0;
    let mut i: usize = 0;
    while i < tiles.len()
        invariant
            i <= tiles@.len(),
            n <= i,
            n == count_of(tiles@.take(i as int), t),
        decreases tiles@.len() - i,
    {
        proof {
            assert(tiles@.take(i + 1).drop_last() =~= tiles@.take(i as int));
        }
        if tiles[i] == t {
            n = n + 1;
        }
        i = i + 1;
    }
    proof {
        assert(tiles@.take(tiles@.len() as int) =~= tiles@);
    }
    n
}

/// Whether `s` contains tile `t`.
pub open spec fn seq_contains_tile(s: Seq<Tile>, t: Tile) -> bool {
    exists|i: int| 0 <= i < s.len() && s[i] == t
}

/// Tests whether `tiles` contains `t`.
pub fn contains_tile(tiles: &Vec<Tile>, t: Tile) -> (r: bool)
    ensures
        r == seq_contains_tile(tiles@, t),
{
    let mut i: usize = 0;
    while i < tiles.len()
        invariant
            i <= tiles@.len(),
            forall|k: int| 0 <= k < i ==> tiles@[k] != t,
        decreases tiles@.len() - i,
    {
        if tiles[i] == t {
            return true;
        }
        i = i + 1;
    }
    false
}

/// `count_of` is positive exactly when the tile occurs in the sequence.
pub proof fn lemma_count_pos(s: Seq<Tile>, t: Tile)
    ensures
        (count_of(s, t) > 0) <==> seq_contains_tile(s, t),
    decreases s.len(),
{
    if s.len() > 0 {
        lemma_count_pos(s.drop_last(), t);
        if s.last() == t {
            assert(s[s.len() - 1] == t);
        } else {
            if seq_contains_tile(s, t) {
                let i = choose|i: int| 0 <= i < s.len() && s[i] == t;
                assert(s.drop_last()[i] == t);
            }
            if seq_contains_tile(s.drop_last(), t) {
                let i = choose|i: int| 0 <= i < s.len() - 1 && s.drop_last()[i] == t;
                assert(s[i] == t);
            }
        }
    }
}

/// Element-wise equality of two tile vectors.
pub fn tiles_eq(a: &Vec<Tile>, b: &Vec<Tile>) -> (r: bool)
    ensures
        r == (a@ == b@),
{
    if a.len() != b.len() {
        proof {
            assert(a@ != b@);
        }
        return false;
    }
    let mut i: usize = 0;
    while i < a.len()
        invariant
            i <= a@.len(),
            a@.len() == b@.len(),
            forall|k: int| 0 <= k < i ==> a@[k] == b@[k],
        decreases a@.len() - i,
    {
        if a[i] != b[i] {
            proof {
                assert(a@ != b@);
            }
            return false;
        }
        i = i + 1;
    }
    proof {
        assert(a@ =~= b@);
    }
    true
}

/// A copy of a tile vector (element for element).
pub fn copy_tiles(tiles: &Vec<Tile>) -> (r: Vec<Tile>)
    ensures
        r@ == tiles@,
{
    let mut out: Vec<Tile> = Vec::new();
    let mut i: usize = 0;
    while i < tiles.len()
        invariant
            i <= tiles@.len(),
            out@ == tiles@.take(i as int),
        decreases tiles@.len() - i,
    {
        proof {
            assert(tiles@.take(i + 1).drop_last() =~= tiles@.take(i as int));
        }
        out.push(tiles[i]);
        i = i + 1;
    }
    proof {
        assert(tiles@.take(tiles@.len() as int) =~= tiles@);
    }
    out
}

/// Lexicographic order on tile sequences: element by element, a strict prefix
/// comes first.
pub open spec fn seq_tile_le(a: Seq<Tile>, b: Seq<Tile>) -> bool
    decreases a.len(),
{
    if a.len() == 0 {
        true
    } else if b.len() == 0 {
        false
    } else if tile_key(a.first()) < tile_key(b.first()) {
        true
    } else if tile_key(a.first()) > tile_key(b.first()) {
        false
    } else {
        seq_tile_le(a.drop_first(), b.drop_first())
    }
}

/// Total order key of a tile, computed.
pub fn tile_key_exec(t: &Tile) -> (k: u16)
    ensures
        k == tile_key(*t),
{
    let si: u16 = match t.suit {
        Suit::Man => 0,
        Suit::Pin => 1,
        Suit::Sou => 2,
        Suit::Hon => 3,
    };
    si * 16 + (t.number as u16)
}

/// Decides the total order on tiles.
pub fn tile_le_exec(a: &Tile, b: &Tile) -> (r: bool)
    ensures
        r == tile_le(*a, *b),
{
    tile_key_exec(a) <= tile_key_exec(b)
}

/// Decides the lexicographic order on tile vectors.
pub fn tiles_le_exec(a: &Vec<Tile>, b: &Vec<Tile>) -> (r: bool)
    ensures
        r == seq_tile_le(a@, b@),
{
    let mut i: usize = 0;
    proof {
        assert(a@.skip(0) =~= a@);
        assert(b@.skip(0) =~= b@);
    }
    loop
        invariant
            i <= a@.len(),
            i <= b@.len(),
            seq_tile_le(a@, b@) == seq_tile_le(a@.skip(i as int), b@.skip(i as int)),
        decreases a@.len() - i,
    {
        if i == a.len() {
            return true;
        }
        if i == b.len() {
            return false;
        }
        let ka = tile_key_exec(&a[i]);
        let kb = tile_key_exec(&b[i]);
        proof {
            assert(a@.skip(i as int).drop_first() =~= a@.skip(i + 1));
            assert(b@.skip(i as int).drop_first() =~= b@.skip(i + 1));
            assert(a@.skip(i as int).first() == a@[i as int]);
            assert(b@.skip(i as int).first() == b@[i as int]);
        }
        if ka < kb {
            return true;
        }
        if ka > kb {
            return false;
        }
        i = i + 1;
    }
}

/// The sequence `s` with `x` inserted after the last element that precedes
/// or equals it under `leq` (insertion-sort step).
pub open spec fn inserted<A>(s: Seq<A>, x: A, leq: spec_fn(A, A) -> bool) -> Seq<A>
    decreases s.len(),
{
    if s.len() == 0 {
        seq![x]
    } else if leq(s.last(), x) {
        s.push(x)
    } else {
        inserted(s.drop_last(), x, leq).push(s.last())
    }
}

/// Stable insertion sort of `s` under `leq`.
pub open spec fn ins_sorted<A>(s: Seq<A>, leq: spec_fn(A, A) -> bool) -> Seq<A>
    decreases s.len(),
{
    if s.len() == 0 {
        s
    } else {
        inserted(ins_sorted(s.drop_last(), leq), s.last(), leq)
    }
}

/// Where `inserted` puts the new element: at the first position `j` from the
/// end with everything at or after `j` strictly above `x`.
pub proof fn lemma_inserted_at<A>(s: Seq<A>, x: A, leq: spec_fn(A, A) -> bool, j: int)
    requires
        0 <= j <= s.len(),
        forall|k: int| j <= k < s.len() ==> !leq(#[trigger] s[k], x),
        j > 0 ==> leq(s[j - 1], x),
    ensures
        inserted(s, x, leq) =~= s.subrange(0, j) + seq![x] + s.subrange(j, s.len() as int),
    decreases s.len() - j,
{
    if j == s.len() {
        if s.len() == 0 {
            assert(inserted(s, x, leq) =~= seq![x]);
        } else {
            assert(leq(s.last(), x));
            assert(s.push(x) =~= s.subrange(0, j) + seq![x] + s.subrange(j, s.len() as int));
        }
    } else {
        assert(!leq(s[s.len() - 1], x));
        lemma_inserted_at(s.drop_last(), x, leq, j);
        assert(inserted(s.drop_last(), x, leq).push(s.last()) =~= s.subrange(0, j) + seq![x]
            + s.subrange(j, s.len() as int));
    }
}

/// Insertion adds the new element to the multiset and changes nothing else.
pub proof fn lemma_inserted_multiset<A>(s: Seq<A>, x: A, leq: spec_fn(A, A) -> bool)
    ensures
        inserted(s, x, leq).to_multiset() =~= s.to_multiset().insert(x),
    decreases s.len(),
{
    broadcast use vstd::seq_lib::group_to_multiset_ensures;

    if s.len() == 0 {
        assert(seq![x] =~= Seq::<A>::empty().push(x));
    } else if leq(s.last(), x) {
    } else {
        lemma_inserted_multiset(s.drop_last(), x, leq);
        assert(s.drop_last().push(s.last()) =~= s);
    }
}

/// Sorting keeps exactly the same elements.
pub proof fn lemma_ins_sorted_multiset<A>(s: Seq<A>, leq: spec_fn(A, A) -> bool)
    ensures
        ins_sorted(s, leq).to_multiset() =~= s.to_multiset(),
    decreases s.len(),
{
    broadcast use vstd::seq_lib::group_to_multiset_ensures;

    if s.len() > 0 {
        lemma_ins_sorted_multiset(s.drop_last(), leq);
        lemma_inserted_multiset(ins_sorted(s.drop_last(), leq), s.last(), leq);
        assert(s.drop_last().push(s.last()) =~= s);
    }
}

/// Every element of the sorted sequence is an element of the input.
pub proof fn lemma_ins_sorted_elem<A>(s: Seq<A>, leq: spec_fn(A, A) -> bool, k: int)
    requires
        0 <= k < ins_sorted(s, leq).len(),
    ensures
        s.contains(ins_sorted(s, leq)[k]),
{
    broadcast use vstd::seq_lib::group_to_multiset_ensures;

    lemma_ins_sorted_multiset(s, leq);
    let x = ins_sorted(s, leq)[k];
    assert(ins_sorted(s, leq).contains(x));
    assert(ins_sorted(s, leq).to_multiset().contains(x));
}

/// Inserting into a sorted sequence keeps it sorted, for a total preorder.
pub proof fn lemma_inserted_sorted<A>(s: Seq<A>, x: A, leq: spec_fn(A, A) -> bool)
    requires
        vstd::relations::sorted_by(s, leq),
        vstd::relations::transitive(leq),
        vstd::relations::strongly_connected(leq),
    ensures
        vstd::relations::sorted_by(inserted(s, x, leq), leq),
    decreases s.len(),
{
    broadcast use vstd::seq_lib::group_to_multiset_ensures;
    broadcast use vstd::multiset::group_multiset_axioms;

    if s.len() == 0 {
    } else if leq(s.last(), x) {
        let r = s.push(x);
        assert forall|i: int, j: int| 0 <= i < j < r.len() implies leq(r[i], r[j]) by {
            if j == r.len() - 1 {
                if i < s.len() - 1 {
                    assert(leq(s[i], s.last()));
                }
            }
        }
    } else {
        assert(vstd::relations::sorted_by(s.drop_last(), leq));
        lemma_inserted_sorted(s.drop_last(), x, leq);
        lemma_inserted_multiset(s.drop_last(), x, leq);
        let r0 = inserted(s.drop_last(), x, leq);
        let r = r0.push(s.last());
        assert forall|i: int, j: int| 0 <= i < j < r.len() implies leq(r[i], r[j]) by {
            if j == r.len() - 1 {
                assert(r0.contains(r0[i]));
                assert(r0.to_multiset().contains(r0[i]));
                if s.drop_last().to_multiset().contains(r0[i]) {
                    let k = choose|k: int|
                        0 <= k < s.drop_last().len() && s.drop_last()[k] == r0[i];
                    assert(leq(s[k], s.last()));
                } else {
                    assert(r0[i] == x);
                    assert(leq(x, s.last()));
                }
            }
        }
    }
}

/// Insertion sort sorts, for a total preorder.
pub proof fn lemma_ins_sorted_sorted<A>(s: Seq<A>, leq: spec_fn(A, A) -> bool)
    requires
        vstd::relations::transitive(leq),
        vstd::relations::strongly_connected(leq),
    ensures
        vstd::relations::sorted_by(ins_sorted(s, leq), leq),
    decreases s.len(),
{
    if s.len() > 0 {
        lemma_ins_sorted_sorted(s.drop_last(), leq);
        lemma_inserted_sorted(ins_sorted(s.drop_last(), leq), s.last(), leq);
    }
}

/// Sorting keeps the length.
pub proof fn lemma_ins_sorted_len<A>(s: Seq<A>, leq: spec_fn(A, A) -> bool)
    ensures
        ins_sorted(s, leq).len() == s.len(),
    decreases s.len(),
{
    if s.len() > 0 {
        lemma_ins_sorted_len(s.drop_last(), leq);
        lemma_inserted_len(ins_sorted(s.drop_last(), leq), s.last(), leq);
    }
}

proof fn lemma_inserted_len<A>(s: Seq<A>, x: A, leq: spec_fn(A, A) -> bool)
    ensures
        inserted(s, x, leq).len() == s.len() + 1,
    decreases s.len(),
{
    if s.len() > 0 && !leq(s.last(), x) {
        lemma_inserted_len(s.drop_last(), x, leq);
    }
}

/// The tile order as a first-class relation.
pub open spec fn tile_leq_fn() -> spec_fn(Tile, Tile) -> bool {
    |a: Tile, b: Tile| tile_le(a, b)
}

/// The ascending reordering of a tile sequence.
pub open spec fn sort_tiles_spec(s: Seq<Tile>) -> Seq<Tile> {
    ins_sorted(s, tile_leq_fn())
}

/// Finds the insertion position that `inserted` uses, scanning from the end.
fn tile_insert_pos(out: &Vec<Tile>, t: &Tile) -> (j: usize)
    ensures
        j <= out@.len(),
        forall|k: int| j <= k < out@.len() ==> !tile_leq_fn()(#[trigger] out@[k], *t),
        j > 0 ==> tile_leq_fn()(out@[j - 1], *t),
{
    let mut j: usize = out.len();
    let mut scanning = true;
    while scanning
        invariant
            j <= out@.len(),
            forall|k: int| j <= k < out@.len() ==> !tile_leq_fn()(#[trigger] out@[k], *t),
            !scanning ==> (j == 0 || tile_leq_fn()(out@[j - 1], *t)),
        decreases j + if scanning { 1int } else { 0int },
    {
        if j == 0 {
            scanning = false;
        } else if tile_le_exec(&out[j - 1], t) {
            scanning = false;
        } else {
            j = j - 1;
        }
    }
    j
}

/// Sorts tiles ascending (suit precedence, then rank).
pub fn sort_tiles(tiles: &Vec<Tile>) -> (r: Vec<Tile>)
    ensures
        r@ == sort_tiles_spec(tiles@),
        tiles_wf(tiles@) ==> tiles_wf(r@),
{
    let mut out: Vec<Tile> = Vec::new();
    let mut i: usize = 0;
    while i < tiles.len()
        invariant
            i <= tiles@.len(),
            out@ == sort_tiles_spec(tiles@.take(i as int)),
            tiles_wf(tiles@) ==> tiles_wf(out@),
        decreases tiles@.len() - i,
    {
        let t = tiles[i];
        let j = tile_insert_pos(&out, &t);
        proof {
            lemma_inserted_at(out@, t, tile_leq_fn(), j as int);
            assert(out@.insert(j as int, t) =~= out@.subrange(0, j as int) + seq![t]
                + out@.subrange(j as int, out@.len() as int));
            assert(tiles@.take(i + 1).drop_last() =~= tiles@.take(i as int));
        }
        out.insert(j, t);
        i = i + 1;
    }
    proof {
        assert(tiles@.take(tiles@.len() as int) =~= tiles@);
    }
    out
}

/// The sequence with runs of equal adjacent tiles collapsed to one copy.
pub open spec fn dedup_spec(s: Seq<Tile>) -> Seq<Tile>
    decreases s.len(),
{
    if s.len() <= 1 {
        s
    } else if s.last() == s[s.len() - 2] {
        dedup_spec(s.drop_last())
    } else {
        dedup_spec(s.drop_last()).push(s.last())
    }
}

/// Collapses runs of equal adjacent tiles to one copy.
pub fn dedup_tiles(tiles: &Vec<Tile>) -> (r: Vec<Tile>)
    ensures
        r@ == dedup_spec(tiles@),
        tiles_wf(tiles@) ==> tiles_wf(r@),
{
    let mut out: Vec<Tile> = Vec::new();
    let mut i: usize = 0;
    while i < tiles.len()
        invariant
            i <= tiles@.len(),
            out@ == dedup_spec(tiles@.take(i as int)),
            tiles_wf(tiles@) ==> tiles_wf(out@),
        decreases tiles@.len() - i,
    {
        proof {
            assert(tiles@.take(i + 1).drop_last() =~= tiles@.take(i as int));
        }
        if i == 0 || tiles[i] != tiles[i - 1] {
            out.push(tiles[i]);
        }
        i = i + 1;
    }
    proof {
        assert(tiles@.take(tiles@.len() as int) =~= tiles@);
    }
    out
}

/// The sequence with the first occurrence of `t` removed (unchanged when `t`
/// does not occur).
pub open spec fn remove_first_spec(s: Seq<Tile>, t: Tile) -> Seq<Tile>
    decreases s.len(),
{
    if s.len() == 0 {
        s
    } else if s.first() == t {
        s.drop_first()
    } else {
        seq![s.first()] + remove_first_spec(s.drop_first(), t)
    }
}

proof fn lemma_remove_first_at(s: Seq<Tile>, t: Tile, j: int)
    requires
        0 <= j < s.len(),
        s[j] == t,
        forall|k: int| 0 <= k < j ==> s[k] != t,
    ensures
        remove_first_spec(s, t) =~= s.subrange(0, j) + s.subrange(j + 1, s.len() as int),
    decreases j,
{
    if j == 0 {
        assert(s.drop_first() =~= s.subrange(0, 0) + s.subrange(1, s.len() as int));
    } else {
        assert(forall|k: int| 0 <= k < j - 1 ==> s.drop_first()[k] != t);
        lemma_remove_first_at(s.drop_first(), t, j - 1);
        assert(seq![s.first()] + (s.drop_first().subrange(0, j - 1) + s.drop_first().subrange(
            j,
            s.len() - 1,
        )) =~= s.subrange(0, j) + s.subrange(j + 1, s.len() as int));
    }
}

proof fn lemma_remove_first_absent(s: Seq<Tile>, t: Tile)
    requires
        forall|k: int| 0 <= k < s.len() ==> s[k] != t,
    ensures
        remove_first_spec(s, t) =~= s,
    decreases s.len(),
{
    if s.len() > 0 {
        assert(forall|k: int| 0 <= k < s.len() - 1 ==> s.drop_first()[k] != t);
        lemma_remove_first_absent(s.drop_first(), t);
        assert(seq![s.first()] + s.drop_first() =~= s);
    }
}

/// Removes the first occurrence of `t` from `tiles`, if any.
pub fn remove_first_tile(tiles: &mut Vec<Tile>, t: Tile)
    ensures
        final(tiles)@ == remove_first_spec(old(tiles)@, t),
        tiles_wf(old(tiles)@) ==> tiles_wf(final(tiles)@),
        final(tiles)@.len() <= old(tiles)@.len(),
{
    let mut j: usize = 0;
    while j < tiles.len()
        invariant
            j <= tiles@.len(),
            tiles@ == old(tiles)@,
            forall|k: int| 0 <= k < j ==> tiles@[k] != t,
        decreases tiles@.len() - j,
    {
        if tiles[j] == t {
            proof {
                lemma_remove_first_at(tiles@, t, j as int);
                assert(tiles@.remove(j as int) =~= tiles@.subrange(0, j as int) + tiles@.subrange(
                    j + 1,
                    tiles@.len() as int,
                ));
            }
            tiles.remove(j);
            return;
        }
        j = j + 1;
    }
    proof {
        lemma_remove_first_absent(tiles@, t);
    }
}

/// `s` with, for each element of `rm` in turn, the first occurrence removed.
pub open spec fn remove_all_spec(s: Seq<Tile>, rm: Seq<Tile>) -> Seq<Tile>
    decreases rm.len(),
{
    if rm.len() == 0 {
        s
    } else {
        remove_first_spec(remove_all_spec(s, rm.drop_last()), rm.last())
    }
}

/// Returns a copy of `tiles` with the members of `tiles_to_remove` removed,
/// one occurrence per member.
pub fn with_tiles_removed(tiles: &Vec<Tile>, tiles_to_remove: &Vec<Tile>) -> (r: Vec<Tile>)
    ensures
        r@ == remove_all_spec(tiles@, tiles_to_remove@),
        tiles_wf(tiles@) ==> tiles_wf(r@),
        r@.len() <= tiles@.len(),
{
    let mut result = copy_tiles(tiles);
    let mut i: usize = 0;
    while i < tiles_to_remove.len()
        invariant
            i <= tiles_to_remove@.len(),
            result@ == remove_all_spec(tiles@, tiles_to_remove@.take(i as int)),
            tiles_wf(tiles@) ==> tiles_wf(result@),
            result@.len() <= tiles@.len(),
        decreases tiles_to_remove@.len() - i,
    {
        proof {
            assert(tiles_to_remove@.take(i + 1).drop_last() =~= tiles_to_remove@.take(i as int));
        }
        remove_first_tile(&mut result, tiles_to_remove[i]);
        i = i + 1;
    }
    proof {
        assert(tiles_to_remove@.take(tiles_to_remove@.len() as int) =~= tiles_to_remove@);
    }
    result
}

/// Every tile is at least as frequent in `tiles` as in `find`.
pub open spec fn spec_has_tiles(tiles: Seq<Tile>, find: Seq<Tile>) -> bool {
    forall|t: Tile| count_of(find, t) <= count_of(tiles, t)
}

/// Checks if `tiles` contains all tiles in `tiles_to_find`, with multiplicity.
pub fn has_tiles(tiles: &Vec<Tile>, tiles_to_find: &Vec<Tile>) -> (r: bool)
    ensures
        r == spec_has_tiles(tiles@, tiles_to_find@),
{
    let mut i: usize = 0;
    while i < tiles_to_find.len()
        invariant
            i <= tiles_to_find@.len(),
            forall|k: int|
                0 <= k < i ==> count_of(tiles_to_find@, #[trigger] tiles_to_find@[k]) <= count_of(
                    tiles@,
                    tiles_to_find@[k],
                ),
        decreases tiles_to_find@.len() - i,
    {
        let t = tiles_to_find[i];
        let needed = count_tile(tiles_to_find, t);
        let present = count_tile(tiles, t);
        if present < needed {
            proof {
                assert(!spec_has_tiles(tiles@, tiles_to_find@));
            }
            return false;
        }
        i = i + 1;
    }
    proof {
        assert forall|t: Tile| count_of(tiles_to_find@, t) <= count_of(tiles@, t) by {
            if count_of(tiles_to_find@, t) > 0 {
                lemma_count_pos(tiles_to_find@, t);
                let k = choose|k: int| 0 <= k < tiles_to_find@.len() && tiles_to_find@[k] == t;
                assert(count_of(tiles_to_find@, tiles_to_find@[k]) <= count_of(
                    tiles@,
                    tiles_to_find@[k],
                ));
            }
        }
    }
    true
}

/// The tile at position `i` of the canonical list of the 34 distinct tiles.
pub open spec fn nth_tile(i: int) -> Tile {
    if i < 9 {
        Tile { suit: Suit::Man, number: (i + 1) as u8 }
    } else if i < 18 {
        Tile { suit: Suit::Pin, number: (i - 8) as u8 }
    } else if i < 27 {
        Tile { suit: Suit::Sou, number: (i - 17) as u8 }
    } else {
        Tile { suit: Suit::Hon, number: (i - 26) as u8 }
    }
}

/// The canonical ascending list of the 34 distinct tiles.
pub open spec fn all_tiles_spec() -> Seq<Tile> {
    Seq::new(34, |i: int| nth_tile(i))
}

/// Returns a list of all 34 unique tiles, in ascending order.
pub fn all_tiles() -> (r: Vec<Tile>)
    ensures
        r@ == all_tiles_spec(),
        tiles_wf(r@),
{
    let mut out: Vec<Tile> = Vec::new();
    let mut i: usize = 0;
    while i < 34
        invariant
            i <= 34,
            out@.len() == i,
            forall|k: int| 0 <= k < i ==> out@[k] == nth_tile(k) && (#[trigger] out@[k]).wf(),
        decreases 34 - i,
    {
        let t = if i < 9 {
            Tile { suit: Suit::Man, number: (i + 1) as u8 }
        } else if i < 18 {
            Tile { suit: Suit::Pin, number: (i - 8) as u8 }
        } else if i < 27 {
            Tile { suit: Suit::Sou, number: (i - 17) as u8 }
        } else {
            Tile { suit: Suit::Hon, number: (i - 26) as u8 }
        };
        out.push(t);
        i = i + 1;
    }
    proof {
        assert(out@ =~= all_tiles_spec());
    }
    out
}

/// A decimal digit character.
pub open spec fn is_digit_char(c: char) -> bool {
    48 <= c as u32 <= 57
}

/// The numeric value of a digit character.
pub open spec fn digit_of_char(c: char) -> int {
    c as u32 - 48
}

/// A suit letter of the tile notation.
pub open spec fn is_suit_char(c: char) -> bool {
    c == 'm' || c == 'p' || c == 's' || c == 'z'
}

/// The suit a notation letter stands for.
pub open spec fn suit_of_char(c: char) -> Suit {
    if c == 'm' {
        Suit::Man
    } else if c == 'p' {
        Suit::Pin
    } else if c == 's' {
        Suit::Sou
    } else {
        Suit::Hon
    }
}

/// The tile written as a digit followed by a suit letter.
pub open spec fn tile_of_chars(d: char, s: char) -> Tile {
    Tile { suit: suit_of_char(s), number: digit_of_char(d) as u8 }
}

/// The notation letter of a suit.
pub open spec fn suit_char(s: Suit) -> char {
    match s {
        Suit::Man => 'm',
        Suit::Pin => 'p',
        Suit::Sou => 's',
        Suit::Hon => 'z',
    }
}

/// The digit character of a rank between 1 and 9.
pub open spec fn digit_char(n: u8) -> char {
    if n == 1 {
        '1'
    } else if n == 2 {
        '2'
    } else if n == 3 {
        '3'
    } else if n == 4 {
        '4'
    } else if n == 5 {
        '5'
    } else if n == 6 {
        '6'
    } else if n == 7 {
        '7'
    } else if n == 8 {
        '8'
    } else {
        '9'
    }
}

fn is_digit_exec(c: char) -> (r: bool)
    ensures
        r == is_digit_char(c),
{
    let u = c as u32;
    48 <= u && u <= 57
}

fn char_digit(c: char) -> (n: u8)
    requires
        is_digit_char(c),
    ensures
        n == digit_of_char(c),
{
    ((c as u32) - 48) as u8
}

/// A two-character tile notation: a digit, then a suit letter.
pub open spec fn valid_tile_str(s: Seq<char>) -> bool {
    s.len() >= 2 && is_digit_char(s[0]) && is_suit_char(s[1])
}

/// Converts a notation string such as `9m` or `5z` to a tile.  The string
/// must start with a digit and a suit letter; anything after is ignored.
pub fn tile_from_string(string: &str) -> (r: Tile)
    requires
        valid_tile_str(string@),
    ensures
        r == tile_of_chars(string@[0], string@[1]),
{
    let c0 = string.get_char(0);
    let c1 = string.get_char(1);
    let number = char_digit(c0);
    let suit = match c1 {
        'm' => Suit::Man,
        'p' => Suit::Pin,
        's' => Suit::Sou,
        _ => Suit::Hon,
    };
    Tile { suit, number }
}

/// Every character of the notation is a digit or a suit letter.
pub open spec fn valid_tiles_str(s: Seq<char>) -> bool {
    forall|i: int| 0 <= i < s.len() ==> is_digit_char(#[trigger] s[i]) || is_suit_char(s[i])
}

/// Parses tile notation: digits stack up until a suit letter closes them,
/// one tile per stacked digit.  Trailing digits without a letter are dropped.
pub open spec fn parse_tiles_rec(s: Seq<char>, stack: Seq<char>) -> Seq<Tile>
    decreases s.len(),
{
    if s.len() == 0 {
        Seq::empty()
    } else if is_digit_char(s.first()) {
        parse_tiles_rec(s.drop_first(), stack.push(s.first()))
    } else {
        Seq::new(stack.len(), |k: int| tile_of_chars(stack[k], s.first())) + parse_tiles_rec(
            s.drop_first(),
            Seq::empty(),
        )
    }
}

/// The tiles a notation string denotes.
pub open spec fn spec_tiles_from(s: Seq<char>) -> Seq<Tile> {
    parse_tiles_rec(s, Seq::empty())
}

/// Converts a notation string such as `12m34p56s17z` to a list of tiles:
/// each run of digits expands to one tile per digit of the suit letter that
/// follows it.
pub fn tiles_from_string(string: &str) -> (r: Vec<Tile>)
    requires
        valid_tiles_str(string@),
    ensures
        r@ == spec_tiles_from(string@),
{
    let n = string.unicode_len();
    let mut tiles: Vec<Tile> = Vec::new();
    let mut stack: Vec<char> = Vec::new();
    let mut i: usize = 0;
    proof {
        assert(string@.skip(0) =~= string@);
    }
    while i < n
        invariant
            i <= string@.len(),
            n == string@.len(),
            valid_tiles_str(string@),
            forall|k: int| 0 <= k < stack@.len() ==> is_digit_char(#[trigger] stack@[k]),
            spec_tiles_from(string@) == tiles@ + parse_tiles_rec(string@.skip(i as int), stack@),
        decreases n - i,
    {
        let c = string.get_char(i);
        proof {
            assert(string@.skip(i as int).first() == string@[i as int]);
            assert(string@.skip(i as int).drop_first() =~= string@.skip(i + 1));
        }
        if is_digit_exec(c) {
            stack.push(c);
        } else {
            let ghost tiles0 = tiles@;
            let mut k: usize = 0;
            while k < stack.len()
                invariant
                    k <= stack@.len(),
                    forall|kk: int| 0 <= kk < stack@.len() ==> is_digit_char(#[trigger] stack@[kk]),
                    is_suit_char(c),
                    tiles@ == tiles0 + Seq::new(k as nat, |kk: int| tile_of_chars(stack@[kk], c)),
                decreases stack@.len() - k,
            {
                let number = char_digit(stack[k]);
                let suit = match c {
                    'm' => Suit::Man,
                    'p' => Suit::Pin,
                    's' => Suit::Sou,
                    _ => Suit::Hon,
                };
                tiles.push(Tile { suit, number });
                proof {
                    assert(tiles@ =~= tiles0 + Seq::new(
                        (k + 1) as nat,
                        |kk: int| tile_of_chars(stack@[kk], c),
                    ));
                }
                k = k + 1;
            }
            proof {
                assert(Seq::new(stack@.len(), |kk: int| tile_of_chars(stack@[kk], c)) =~= Seq::new(
                    stack@.len() as nat,
                    |kk: int| tile_of_chars(stack@[kk], c),
                ));
            }
            stack.clear();
        }
        i = i + 1;
    }
    proof {
        assert(string@.skip(n as int).len() == 0);
        assert(tiles@ =~= spec_tiles_from(string@));
    }
    tiles
}

fn digit_str(n: u8) -> (r: &'static str)
    requires
        1 <= n <= 9,
    ensures
        r@ =~= seq![digit_char(n)],
{
    proof {
        reveal_strlit("1");
        reveal_strlit("2");
        reveal_strlit("3");
        reveal_strlit("4");
        reveal_strlit("5");
        reveal_strlit("6");
        reveal_strlit("7");
        reveal_strlit("8");
        reveal_strlit("9");
    }
    match n {
        1 => "1",
        2 => "2",
        3 => "3",
        4 => "4",
        5 => "5",
        6 => "6",
        7 => "7",
        8 => "8",
        _ => "9",
    }
}

fn suit_str(s: Suit) -> (r: &'static str)
    ensures
        r@ =~= seq![suit_char(s)],
{
    proof {
        reveal_strlit("m");
        reveal_strlit("p");
        reveal_strlit("s");
        reveal_strlit("z");
    }
    match s {
        Suit::Man => "m",
        Suit::Pin => "p",
        Suit::Sou => "s",
        Suit::Hon => "z",
    }
}

/// The notation of one tile: its rank digit, then its suit letter.
pub open spec fn spec_tile_str(t: Tile) -> Seq<char> {
    seq![digit_char(t.number), suit_char(t.suit)]
}

/// Converts a tile to its notation string.
pub fn tile_to_string(tile: &Tile) -> (r: String)
    requires
        tile.wf(),
    ensures
        r@ == spec_tile_str(*tile),
{
    let mut out = digit_str(tile.number).to_owned();
    out.append(suit_str(tile.suit));
    proof {
        assert(out@ =~= spec_tile_str(*tile));
    }
    out
}

/// The notation of a tile list with the suit letter shared by each run of
/// same-suit tiles: the digits of a run, then its letter.
pub open spec fn tiles_str_rec(tiles: Seq<Tile>, cur: Suit) -> Seq<char>
    decreases tiles.len(),
{
    if tiles.len() == 0 {
        seq![suit_char(cur)]
    } else if tiles.first().suit == cur {
        seq![digit_char(tiles.first().number)] + tiles_str_rec(tiles.drop_first(), cur)
    } else {
        seq![suit_char(cur), digit_char(tiles.first().number)] + tiles_str_rec(
            tiles.drop_first(),
            tiles.first().suit,
        )
    }
}

/// The notation of a tile list; empty for no tiles.
pub open spec fn spec_tiles_str(tiles: Seq<Tile>) -> Seq<char> {
    if tiles.len() == 0 {
        Seq::empty()
    } else {
        tiles_str_rec(tiles, tiles.first().suit)
    }
}

/// Converts a list of tiles to a notation string.
pub fn tiles_to_string(tiles: &Vec<Tile>) -> (r: String)
    requires
        tiles_wf(tiles@),
    ensures
        r@ == spec_tiles_str(tiles@),
{
    let mut out = String::new();
    if tiles.len() == 0 {
        proof {
            assert(out@ =~= spec_tiles_str(tiles@));
        }
        return out;
    }
    let mut cur: Suit = tiles[0].suit;
    let mut i: usize = 0;
    proof {
        assert(tiles@.skip(0) =~= tiles@);
    }
    while i < tiles.len()
        invariant
            i <= tiles@.len(),
            tiles@.len() > 0,
            tiles_wf(tiles@),
            spec_tiles_str(tiles@) == out@ + tiles_str_rec(tiles@.skip(i as int), cur),
        decreases tiles@.len() - i,
    {
        proof {
            assert(tiles@.skip(i as int).first() == tiles@[i as int]);
            assert(tiles@.skip(i as int).drop_first() =~= tiles@.skip(i + 1));
            assert(tiles@[i as int].wf());
        }
        if tiles[i].suit != cur {
            out.append(suit_str(cur));
            cur = tiles[i].suit;
        }
        out.append(digit_str(tiles[i].number));
        i = i + 1;
    }
    out.append(suit_str(cur));
    proof {
        assert(tiles@.skip(tiles@.len() as int).len() == 0);
        assert(out@ =~= spec_tiles_str(tiles@));
    }
    out
}

} // verus!
