use vstd::prelude::*;

use crate::consts::{MAX_CARD_ORDINALITY, MAX_PLAYERS};
use crate::game::primitives::{CardCount, CardRank, PlayerID, MAX_TOTAL_PLAY};

verus! {

broadcast use vstd::array::group_array_axioms;

/// The sum of the counts in `s`.
pub open spec fn sum_counts(s: Seq<CardCount>) -> nat
    decreases s.len(),
{
    if s.len() == 0 {
        0
    } else {
        sum_counts(s.drop_last()) + s.last().0 as nat
    }
}

/// The sum of the numbers in `s`.
pub open spec fn sum_usizes(s: Seq<usize>) -> nat
    decreases s.len(),
{
    if s.len() == 0 {
        0
    } else {
        sum_usizes(s.drop_last()) + s.last() as nat
    }
}

pub proof fn lemma_sum_counts_bound(s: Seq<CardCount>, bound: nat)
    requires
        forall|i: int| 0 <= i < s.len() ==> (#[trigger] s[i]).0 <= bound,
    ensures
        sum_counts(s) <= s.len() * bound,
    decreases s.len(),
{
    if s.len() > 0 {
        lemma_sum_counts_bound(s.drop_last(), bound);
        assert((s.len() - 1) * bound + bound == s.len() * bound) by (nonlinear_arith);
    }
}

pub proof fn lemma_sum_counts_zero(s: Seq<CardCount>)
    ensures
        (sum_counts(s) == 0) <==> (forall|i: int| 0 <= i < s.len() ==> (#[trigger] s[i]).0 == 0),
    decreases s.len(),
{
    if s.len() > 0 {
        lemma_sum_counts_zero(s.drop_last());
        if sum_counts(s) == 0 {
            assert forall|i: int| 0 <= i < s.len() implies (#[trigger] s[i]).0 == 0 by {
                if i < s.len() - 1 {
                    assert(s.drop_last()[i] == s[i]);
                }
            }
        }
        if forall|i: int| 0 <= i < s.len() ==> (#[trigger] s[i]).0 == 0 {
            assert forall|i: int| 0 <= i < s.drop_last().len() implies (#[trigger] s.drop_last()[i]).0
                == 0 by {
                assert(s.drop_last()[i] == s[i]);
            }
        }
    }
}

/// A sequence of counts sums to the same as the sequence of their numbers.
pub proof fn lemma_sum_counts_usizes(counts: Seq<CardCount>, numbers: Seq<usize>)
    requires
        counts.len() == numbers.len(),
        forall|i: int| 0 <= i < counts.len() ==> #[trigger] counts[i].0 == numbers[i],
    ensures
        sum_counts(counts) == sum_usizes(numbers),
    decreases counts.len(),
{
    if counts.len() > 0 {
        lemma_sum_counts_usizes(counts.drop_last(), numbers.drop_last());
    }
}

/// An array with `value` under every rank.
pub fn filled_rank_array<T: Copy>(value: T) -> (values: [T; MAX_CARD_ORDINALITY])
    ensures
        forall|r: int| 0 <= r < MAX_CARD_ORDINALITY ==> #[trigger] values@[r] == value,
{
    [value; MAX_CARD_ORDINALITY]
}

/// The cards one holder has: entry `r` counts the cards of rank `r`.
#[derive(Debug, Clone, Copy, PartialEq, Eq, Hash)]
pub struct PlayerHand(pub [CardCount; MAX_CARD_ORDINALITY]);

impl PlayerHand {
    /// The count of rank `r`.
    pub open spec fn count(self, r: int) -> nat {
        self.0@[r].0 as nat
    }

    /// Every count is a valid card count.
    pub open spec fn wf(self) -> bool {
        forall|r: int| 0 <= r < MAX_CARD_ORDINALITY ==> #[trigger] self.count(r) <= MAX_TOTAL_PLAY
    }

    /// The number of cards held.
    pub open spec fn total(self) -> nat {
        sum_counts(self.0@)
    }

    pub fn new(values: [CardCount; MAX_CARD_ORDINALITY]) -> (hand: Self)
        ensures
            hand.0 == values,
    {
        PlayerHand(values)
    }

    pub fn empty() -> (hand: Self)
        ensures
            forall|r: int| 0 <= r < MAX_CARD_ORDINALITY ==> #[trigger] hand.count(r) == 0,
            hand.wf(),
    {
        let hand = PlayerHand(filled_rank_array(CardCount(0)));
        assert forall|r: int| 0 <= r < MAX_CARD_ORDINALITY implies #[trigger] hand.count(r) == 0 by {
            assert(hand.0@[r] == CardCount(0));
        }
        hand
    }

    /// The count of `rank`.
    pub fn get_count(&self, rank: CardRank) -> (count: CardCount)
        requires
            rank.wf(),
        ensures
            count == self.0@[rank.0 as int],
    {
        self.0[rank.0]
    }

    /// Replaces the count of `rank` and leaves the other ranks alone.
    pub fn set_count(&mut self, rank: CardRank, count: CardCount)
        requires
            rank.wf(),
        ensures
            final(self).0@ == old(self).0@.update(rank.0 as int, count),
    {
        self.0[rank.0] = count;
    }

    pub fn to_usize_counts(&self) -> (counts: [usize; MAX_CARD_ORDINALITY])
        ensures
            forall|r: int| 0 <= r < MAX_CARD_ORDINALITY ==> #[trigger] counts@[r] == self.count(r),
    {
        let mut counts = [0usize; MAX_CARD_ORDINALITY];
        let mut r: usize = 0;
        while r < MAX_CARD_ORDINALITY
            invariant
                r <= MAX_CARD_ORDINALITY,
                forall|i: int| 0 <= i < r ==> #[trigger] counts@[i] == self.count(i),
            decreases MAX_CARD_ORDINALITY - r,
        {
            counts[r] = self.0[r].0;
            r = r + 1;
        }
        counts
    }

    /// The counts in rank order.
    pub fn iter(&self) -> (counts: std::slice::Iter<'_, CardCount>)
        ensures
            vstd::std_specs::slice::into_iter_elts(counts) == self.0@,
    {
        let slice: &[CardCount] = self.0.as_slice();
        slice.iter()
    }

    pub fn total_cards(&self) -> (total: usize)
        requires
            self.wf(),
        ensures
            total == self.total(),
    {
        let mut total: usize = 0;
        let mut r: usize = 0;
        while r < MAX_CARD_ORDINALITY
            invariant
                r <= MAX_CARD_ORDINALITY,
                self.wf(),
                total == sum_counts(self.0@.subrange(0, r as int)),
                total <= r * MAX_TOTAL_PLAY,
            decreases MAX_CARD_ORDINALITY - r,
        {
            assert(self.0@.subrange(0, r + 1).drop_last() =~= self.0@.subrange(0, r as int));
            assert(self.count(r as int) <= MAX_TOTAL_PLAY);
            total = total + self.0[r].0;
            r = r + 1;
        }
        assert(self.0@.subrange(0, MAX_CARD_ORDINALITY as int) =~= self.0@);
        total
    }

    pub fn is_empty(&self) -> (empty: bool)
        ensures
            empty == (forall|r: int| 0 <= r < MAX_CARD_ORDINALITY ==> #[trigger] self.count(r) == 0),
            empty == (self.total() == 0),
    {
        proof {
            lemma_sum_counts_zero(self.0@);
        }
        let mut r: usize = 0;
        while r < MAX_CARD_ORDINALITY
            invariant
                r <= MAX_CARD_ORDINALITY,
                forall|i: int| 0 <= i < r ==> #[trigger] self.count(i) == 0,
            decreases MAX_CARD_ORDINALITY - r,
        {
            if self.0[r].0 != 0 {
                assert(self.count(r as int) != 0);
                proof {
                    lemma_sum_counts_zero(self.0@);
                }
                return false;
            }
            r = r + 1;
        }
        assert forall|i: int| 0 <= i < self.0@.len() implies (#[trigger] self.0@[i]).0 == 0 by {
            assert(self.count(i) == 0);
        }
        true
    }
}

/// One value per seat at the table.
#[derive(Debug, Clone, Copy, Hash, PartialEq, Eq)]
pub struct PlayerIndexed<T>(pub [T; MAX_PLAYERS]);

impl<T> PlayerIndexed<T> {
    /// The value of seat `p`.
    pub open spec fn at(self, p: int) -> T {
        self.0@[p]
    }

    pub fn new(values: [T; MAX_PLAYERS]) -> (indexed: Self)
        ensures
            indexed.0 == values,
    {
        PlayerIndexed(values)
    }

    pub fn get(&self) -> (values: &[T; MAX_PLAYERS])
        ensures
            *values == self.0,
    {
        &self.0
    }

    /// The value of `player`.
    pub fn get_value(&self, player: PlayerID) -> (value: &T)
        requires
            player.wf(),
        ensures
            *value == self.at(player.0 as int),
    {
        &self.0[player.0]
    }

    /// Replaces the value of `player` and leaves the other seats alone.
    pub fn set_value(&mut self, player: PlayerID, value: T)
        requires
            player.wf(),
        ensures
            final(self).0@ == old(self).0@.update(player.0 as int, value),
    {
        self.0[player.0] = value;
    }

    /// The values in seat order.
    pub fn iter(&self) -> (values: std::slice::Iter<'_, T>)
        ensures
            vstd::std_specs::slice::into_iter_elts(values) == self.0@,
    {
        let slice: &[T] = self.0.as_slice();
        slice.iter()
    }
}

impl<T: Copy> PlayerIndexed<T> {
    pub fn filled(value: T) -> (indexed: Self)
        ensures
            forall|p: int| 0 <= p < MAX_PLAYERS ==> #[trigger] indexed.at(p) == value,
    {
        PlayerIndexed([value; MAX_PLAYERS])
    }

    /// The seats `0, ..., number_of_players - 1` with their values, in seat order.
    pub fn iter_active(&self, number_of_players: usize) -> (active: Vec<(PlayerID, T)>)
        requires
            0 < number_of_players <= MAX_PLAYERS,
        ensures
            active@.len() == number_of_players,
            forall|i: int|
                0 <= i < number_of_players ==> (#[trigger] active@[i]).0.0 == i && active@[i].1
                    == self.at(i),
    {
        let mut active: Vec<(PlayerID, T)> = Vec::new();
        let mut i: usize = 0;
        while i < number_of_players
            invariant
                i <= number_of_players <= MAX_PLAYERS,
                active@.len() == i,
                forall|j: int|
                    0 <= j < i ==> (#[trigger] active@[j]).0.0 == j && active@[j].1 == self.at(j),
            decreases number_of_players - i,
        {
            active.push((PlayerID::new(i), self.0[i]));
            i = i + 1;
        }
        active
    }
}


/// The number of nonzero entries among the first `n` entries of `s`.
pub open spec fn count_nonzero(s: Seq<usize>, n: int) -> nat
    decreases n,
{
    if n <= 0 {
        0
    } else {
        count_nonzero(s, n - 1) + if s[n - 1] != 0 { 1nat } else { 0nat }
    }
}

/// The number of zero entries among the first `n` entries of `s`.
pub open spec fn count_zero(s: Seq<usize>, n: int) -> nat
    decreases n,
{
    if n <= 0 {
        0
    } else {
        count_zero(s, n - 1) + if s[n - 1] == 0 { 1nat } else { 0nat }
    }
}

/// The largest of the first `n` entries of `s` (0 when `n` is 0).
pub open spec fn max_prefix(s: Seq<usize>, n: int) -> nat
    decreases n,
{
    if n <= 0 {
        0
    } else {
        let m = max_prefix(s, n - 1);
        if s[n - 1] as nat > m {
            s[n - 1] as nat
        } else {
            m
        }
    }
}

pub proof fn lemma_max_prefix_bounds(s: Seq<usize>, n: int)
    requires
        0 <= n <= s.len(),
    ensures
        forall|i: int| 0 <= i < n ==> s[i] <= #[trigger] max_prefix(s, n),
        n == 0 || exists|i: int| 0 <= i < n && s[i] == max_prefix(s, n),
    decreases n,
{
    if n > 0 {
        lemma_max_prefix_bounds(s, n - 1);
        assert forall|i: int| 0 <= i < n implies s[i] <= #[trigger] max_prefix(s, n) by {
            if i < n - 1 {
                assert(s[i] <= max_prefix(s, n - 1));
            }
        }
        if s[n - 1] as nat <= max_prefix(s, n - 1) && n - 1 > 0 {
            let w = choose|i: int| 0 <= i < n - 1 && s[i] == max_prefix(s, n - 1);
            assert(0 <= w < n && s[w] == max_prefix(s, n));
        }
    }
}

pub proof fn lemma_count_nonzero_bound(s: Seq<usize>, n: int)
    requires
        0 <= n,
    ensures
        count_nonzero(s, n) <= n,
        count_nonzero(s, n) + count_zero(s, n) == n,
    decreases n,
{
    if n > 0 {
        lemma_count_nonzero_bound(s, n - 1);
    }
}

/// Updating an entry at or beyond `n` leaves the counts of the first `n` entries alone.
pub proof fn lemma_count_update_beyond(s: Seq<usize>, n: int, k: int, v: usize)
    requires
        0 <= n <= k < s.len(),
    ensures
        count_nonzero(s.update(k, v), n) == count_nonzero(s, n),
        count_zero(s.update(k, v), n) == count_zero(s, n),
    decreases n,
{
    if n > 0 {
        lemma_count_update_beyond(s, n - 1, k, v);
    }
}

/// Turning a zero entry below `n` into a nonzero one moves one entry from the zero count to the
/// nonzero count.
pub proof fn lemma_count_update_zero_to_nonzero(s: Seq<usize>, n: int, k: int, v: usize)
    requires
        0 <= k < n <= s.len(),
        s[k] == 0,
        v != 0,
    ensures
        count_nonzero(s.update(k, v), n) == count_nonzero(s, n) + 1,
        count_zero(s.update(k, v), n) + 1 == count_zero(s, n),
    decreases n,
{
    if n - 1 == k {
        lemma_count_update_beyond(s, n - 1, k, v);
    } else {
        lemma_count_update_zero_to_nonzero(s, n - 1, k, v);
    }
}

/// The finishing places of the players: 0 while a player still holds cards, and `k` for the
/// `k`-th player to run out of cards.
#[derive(Debug, Clone, Copy, Hash, PartialEq, Eq)]
pub struct PlayerPlacements(pub PlayerIndexed<usize>);

impl PlayerPlacements {
    /// The placement of seat `p`.
    pub open spec fn place(self, p: int) -> usize {
        self.0.0@[p]
    }

    /// The number of players who are out.
    pub open spec fn num_out(self) -> nat {
        count_nonzero(self.0.0@, MAX_PLAYERS as int)
    }

    /// The number of players among the first `n` seats who still hold cards.
    pub open spec fn num_active(self, n: int) -> nat {
        count_zero(self.0.0@, n)
    }

    /// The largest placement handed out so far.
    pub open spec fn max_place(self) -> nat {
        max_prefix(self.0.0@, MAX_PLAYERS as int)
    }

    /// Placements are handed out one at a time: no two players share a placement, and no
    /// placement exceeds the number of players who are out.
    pub open spec fn wf(self) -> bool {
        &&& forall|p: int| 0 <= p < MAX_PLAYERS ==> #[trigger] self.place(p) <= self.num_out()
        &&& forall|p: int, q: int|
            0 <= p < MAX_PLAYERS && 0 <= q < MAX_PLAYERS && p != q && self.place(p) != 0
                ==> #[trigger] self.place(p) != #[trigger] self.place(q)
    }

    pub fn new() -> (placements: Self)
        ensures
            forall|p: int| 0 <= p < MAX_PLAYERS ==> #[trigger] placements.place(p) == 0,
            placements.wf(),
    {
        let placements = PlayerPlacements(PlayerIndexed::filled(0));
        assert forall|p: int| 0 <= p < MAX_PLAYERS implies #[trigger] placements.place(p) == 0 by {
            assert(placements.0.at(p) == 0);
        }
        placements
    }

    pub fn get_placement(&self, player: PlayerID) -> (place: usize)
        requires
            player.wf(),
        ensures
            place == self.place(player.0 as int),
    {
        self.0.0[player.0]
    }

    pub fn is_out(&self, player: PlayerID) -> (out: bool)
        requires
            player.wf(),
        ensures
            out == (self.place(player.0 as int) != 0),
    {
        self.0.0[player.0] != 0
    }

    /// Whether at most one of the first `number_of_players` seats still holds cards.
    pub fn all_out_but_one(&self, number_of_players: usize) -> (done: bool)
        requires
            0 < number_of_players <= MAX_PLAYERS,
        ensures
            done == (self.num_active(number_of_players as int) <= 1),
    {
        let mut num_not_out: usize = 0;
        let mut p: usize = 0;
        while p < number_of_players
            invariant
                p <= number_of_players <= MAX_PLAYERS,
                num_not_out == self.num_active(p as int),
                num_not_out <= 1,
            decreases number_of_players - p,
        {
            if self.0.0[p] == 0 {
                num_not_out = num_not_out + 1;
            }
            if num_not_out > 1 {
                proof {
                    lemma_count_zero_monotone(self.0.0@, p as int + 1, number_of_players as int);
                }
                return false;
            }
            p = p + 1;
        }
        true
    }

    /// Gives `player` the next placement: one more than the largest placement so far.
    pub fn mark_out(&mut self, player: PlayerID)
        requires
            player.wf(),
            old(self).wf(),
            old(self).place(player.0 as int) == 0,
        ensures
            final(self).wf(),
            final(self).place(player.0 as int) == old(self).max_place() + 1,
            final(self).num_out() == old(self).num_out() + 1,
            forall|p: int|
                0 <= p < MAX_PLAYERS && p != player.0 ==> #[trigger] final(self).place(p) == old(
                    self,
                ).place(p),
    {
        let ghost s = self.0.0@;
        let mut max: usize = 0;
        let mut p: usize = 0;
        while p < MAX_PLAYERS
            invariant
                p <= MAX_PLAYERS,
                self.0.0@ == s,
                max == max_prefix(s, p as int),
            decreases MAX_PLAYERS - p,
        {
            if self.0.0[p] > max {
                max = self.0.0[p];
            }
            p = p + 1;
        }
        proof {
            lemma_max_prefix_bounds(s, MAX_PLAYERS as int);
            lemma_count_nonzero_bound(s, MAX_PLAYERS as int);
            let w = choose|i: int| 0 <= i < MAX_PLAYERS && s[i] == max_prefix(s, MAX_PLAYERS as int);
            assert(old(self).place(w) <= old(self).num_out());
            lemma_count_update_zero_to_nonzero(s, MAX_PLAYERS as int, player.0 as int, (max + 1) as usize);
        }
        self.0.0[player.0] = max + 1;
        assert(self.0.0@ == s.update(player.0 as int, (max + 1) as usize));
        assert forall|p: int| 0 <= p < MAX_PLAYERS implies #[trigger] self.place(p) <= self.num_out() by {
            if p != player.0 {
                assert(old(self).place(p) <= old(self).num_out());
            }
        }
        assert forall|p: int, q: int|
            0 <= p < MAX_PLAYERS && 0 <= q < MAX_PLAYERS && p != q && self.place(p) != 0
                implies #[trigger] self.place(p) != #[trigger] self.place(q) by {
            if p == player.0 {
                assert(s[q] <= max_prefix(s, MAX_PLAYERS as int));
            } else if q == player.0 {
                assert(s[p] <= max_prefix(s, MAX_PLAYERS as int));
            } else {
                assert(old(self).place(p) != old(self).place(q));
            }
        }
    }

    /// The first seat after `current_player_number`, going around the first
    /// `number_of_players` seats, whose player still holds cards; `None` when there is none
    /// besides the current player.
    pub fn get_next_active_player(&self, current_player_number: PlayerID, number_of_players: usize) -> (next: Option<PlayerID>)
        requires
            0 < number_of_players <= MAX_PLAYERS,
            current_player_number.0 < number_of_players,
        ensures
            next == spec_next_active(*self, current_player_number.0 as int, number_of_players as int),
    {
        let mut i: usize = 1;
        while i < number_of_players
            invariant
                1 <= i <= number_of_players <= MAX_PLAYERS,
                current_player_number.0 < number_of_players,
                spec_next_active_from(*self, current_player_number.0 as int, number_of_players as int, 1)
                    == spec_next_active_from(*self, current_player_number.0 as int, number_of_players as int, i as int),
            decreases number_of_players - i,
        {
            let next_player_number = (current_player_number.0 + i) % number_of_players;
            if self.0.0[next_player_number] == 0 {
                return Some(PlayerID::new(next_player_number));
            }
            i = i + 1;
        }
        None
    }
}

pub proof fn lemma_count_zero_monotone(s: Seq<usize>, a: int, b: int)
    requires
        0 <= a <= b,
    ensures
        count_zero(s, a) <= count_zero(s, b),
    decreases b - a,
{
    if a < b {
        lemma_count_zero_monotone(s, a, b - 1);
    }
}

/// Searching the seats `c + i, c + i + 1, ..., c + n - 1` (mod `n`) for a player still holding
/// cards.
pub open spec fn spec_next_active_from(placements: PlayerPlacements, c: int, n: int, i: int) -> Option<PlayerID>
    decreases n - i,
{
    if i >= n || i < 1 {
        None
    } else if placements.place((c + i) % n) == 0 {
        Some(PlayerID(((c + i) % n) as usize))
    } else {
        spec_next_active_from(placements, c, n, i + 1)
    }
}

/// The next seat after `c` (mod `n`) whose player still holds cards, other than `c` itself.
pub open spec fn spec_next_active(placements: PlayerPlacements, c: int, n: int) -> Option<PlayerID> {
    spec_next_active_from(placements, c, n, 1)
}

/// The number of cards each player holds.
#[derive(Debug, Clone, Copy, Hash, PartialEq, Eq)]
pub struct HandSizes(pub PlayerIndexed<usize>);

impl HandSizes {
    /// The hand size of seat `p`.
    pub open spec fn size(self, p: int) -> usize {
        self.0.0@[p]
    }

    pub fn new(values: [usize; MAX_PLAYERS]) -> (sizes: Self)
        ensures
            sizes.0.0 == values,
    {
        HandSizes(PlayerIndexed::new(values))
    }

    pub fn empty() -> (sizes: Self)
        ensures
            forall|p: int| 0 <= p < MAX_PLAYERS ==> #[trigger] sizes.size(p) == 0,
    {
        let sizes = HandSizes(PlayerIndexed::filled(0));
        assert forall|p: int| 0 <= p < MAX_PLAYERS implies #[trigger] sizes.size(p) == 0 by {
            assert(sizes.0.at(p) == 0);
        }
        sizes
    }

    pub fn is_empty(&self, player: PlayerID) -> (empty: bool)
        requires
            player.wf(),
        ensures
            empty == (self.size(player.0 as int) == 0),
    {
        self.0.0[player.0] == 0
    }

    pub fn get(&self) -> (sizes: &[usize; MAX_PLAYERS])
        ensures
            *sizes == self.0.0,
    {
        &self.0.0
    }

    pub fn get_size(&self, player: PlayerID) -> (size: usize)
        requires
            player.wf(),
        ensures
            size == self.size(player.0 as int),
    {
        self.0.0[player.0]
    }

    pub fn add_cards(&mut self, player: PlayerID, count: CardCount)
        requires
            player.wf(),
            old(self).size(player.0 as int) + count.0 <= usize::MAX,
        ensures
            final(self).0.0@ == old(self).0.0@.update(
                player.0 as int,
                (old(self).size(player.0 as int) + count.0) as usize,
            ),
    {
        self.0.0[player.0] = self.0.0[player.0] + count.0;
    }

    pub fn remove_cards(&mut self, player: PlayerID, count: CardCount)
        requires
            player.wf(),
            count.0 <= old(self).size(player.0 as int),
        ensures
            final(self).0.0@ == old(self).0.0@.update(
                player.0 as int,
                (old(self).size(player.0 as int) - count.0) as usize,
            ),
    {
        self.0.0[player.0] = self.0.0[player.0] - count.0;
    }
}

/// Law: taking off a seat's hand size the cards just added to it gives back the hand sizes from
/// before, with the sizes `added` after `add_cards` and `after` after `remove_cards`.
pub proof fn law_remove_undoes_add(before: HandSizes, added: HandSizes, after: HandSizes, player: PlayerID, count: CardCount)
    requires
        player.wf(),
        before.size(player.0 as int) + count.0 <= usize::MAX,
        added.0.0@ == before.0.0@.update(player.0 as int, (before.size(player.0 as int) + count.0) as usize),
        after.0.0@ == added.0.0@.update(player.0 as int, (added.size(player.0 as int) - count.0) as usize),
    ensures
        after == before,
{
    assert(after.0.0 =~= before.0.0);
}

} // verus!
