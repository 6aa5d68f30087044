use vstd::prelude::*;

use crate::consts::{MAX_CARD_NUMBER, MAX_CARD_ORDINALITY, MAX_PLAYERS};
use crate::eval::normalize::NormalizedIncompleteInformation;
use crate::game::primitives::MAX_TOTAL_PLAY;
use crate::world::margins::filled_array;

verus! {

/// The increment of the SplitMix64 state.
pub const SPLITMIX_GAMMA: u64 = 0x9E37_79B9_7F4A_7C15;
/// The first multiplier of the SplitMix64 output mix.
pub const SPLITMIX_MIX_1: u64 = 0xBF58_476D_1CE4_E5B9;
/// The second multiplier of the SplitMix64 output mix.
pub const SPLITMIX_MIX_2: u64 = 0x94D0_49BB_1331_11EB;

/// The state of a SplitMix64 generator seeded with `seed` after `k` draws.
#[verifier::opaque]
pub open spec fn splitmix_state(seed: u64, k: nat) -> u64
    decreases k,
{
    if k == 0 {
        seed
    } else {
        vstd::wrapping::u64_specs::wrapping_add(splitmix_state(seed, (k - 1) as nat), SPLITMIX_GAMMA)
    }
}

/// The value that SplitMix64 hands out for the state it has just moved to.
#[verifier::opaque]
pub open spec fn splitmix_output(state: u64) -> u64 {
    let z1 = vstd::wrapping::u64_specs::wrapping_mul(state ^ (state >> 30u64), SPLITMIX_MIX_1);
    let z2 = vstd::wrapping::u64_specs::wrapping_mul(z1 ^ (z1 >> 27u64), SPLITMIX_MIX_2);
    z2 ^ (z2 >> 31u64)
}

/// Draw number `k` (counting from zero) of a SplitMix64 generator seeded with `seed`.
pub open spec fn splitmix_value(seed: u64, k: nat) -> u64 {
    splitmix_output(splitmix_state(seed, k + 1))
}

/// One draw moves the state on by the increment.
pub proof fn lemma_splitmix_step(seed: u64, k: nat)
    ensures
        splitmix_state(seed, k + 1) == vstd::wrapping::u64_specs::wrapping_add(splitmix_state(seed, k), SPLITMIX_GAMMA),
        splitmix_state(seed, 0) == seed,
{
    reveal(splitmix_state);
}

/// The SplitMix64 generator, which fills the Zobrist table.
#[derive(Clone)]
struct SplitMix64 {
    state: u64,
}

impl SplitMix64 {
    fn new(seed: u64) -> (generator: Self)
        ensures
            generator.state == seed,
    {
        Self { state: seed }
    }

    fn next_u64(&mut self) -> (value: u64)
        ensures
            final(self).state == vstd::wrapping::u64_specs::wrapping_add(old(self).state, SPLITMIX_GAMMA),
            value == splitmix_output(final(self).state),
    {
        self.state = self.state.wrapping_add(SPLITMIX_GAMMA);
        let mut z = self.state;
        z = (z ^ (z >> 30u64)).wrapping_mul(SPLITMIX_MIX_1);
        z = (z ^ (z >> 27u64)).wrapping_mul(SPLITMIX_MIX_2);
        proof {
            reveal(splitmix_output);
        }
        z ^ (z >> 31u64)
    }
}

/// Draw number `k` of the generator seeded with `seed`.
fn draw(generator: &mut SplitMix64, Ghost(seed): Ghost<u64>, Ghost(k): Ghost<nat>) -> (value: u64)
    requires
        old(generator).state == splitmix_state(seed, k),
    ensures
        final(generator).state == splitmix_state(seed, k + 1),
        value == splitmix_value(seed, k),
{
    proof {
        lemma_splitmix_step(seed, k);
    }
    generator.next_u64()
}

/// The Zobrist hash of a normalized state.
#[derive(Clone, Copy, Debug, PartialEq, Eq, Hash, Structural)]
pub struct ZobristHash(pub u64);

/// One more than the largest hand size the table has keys for.
pub const ZOBRIST_HAND_SIZE_MAX: usize = 100;

/// Random keys for every feature of a normalized state: a count of a rank in the player's hand
/// or among the opponents, a hand size, a pass, and the seat, rank and number of the top set.
/// A count, size or number of zero, and the wild rank of a top set, have no key.
pub struct ZobristTable {
    player_hand: [[u64; 17]; MAX_CARD_ORDINALITY],
    opponent_hand: [[u64; 17]; MAX_CARD_ORDINALITY],
    hand_sizes: [[u64; 99]; MAX_PLAYERS],
    has_passed: [u64; MAX_PLAYERS],
    top_set_player: [u64; MAX_PLAYERS],
    top_set_rank: [u64; 17],
    top_set_count: [u64; 35],
}

/// The number of draws that fill the player and opponent keys: two for each rank and count.
pub open spec fn hand_key_draws() -> nat {
    612
}

impl ZobristTable {
    /// The key for holding `count` (from 1 to 17) cards of rank `rank`.
    pub closed spec fn player_hand_key(&self, rank: int, count: int) -> u64 {
        self.player_hand@[rank]@[count - 1]
    }

    /// The key for the opponents holding `count` (from 1 to 17) cards of rank `rank`.
    pub closed spec fn opponent_hand_key(&self, rank: int, count: int) -> u64 {
        self.opponent_hand@[rank]@[count - 1]
    }

    /// The key for seat `player` holding `size` (from 1 to 99) cards.
    pub closed spec fn hand_size_key(&self, player: int, size: int) -> u64 {
        self.hand_sizes@[player]@[size - 1]
    }

    /// The key for seat `player` having passed.
    pub closed spec fn has_passed_key(&self, player: int) -> u64 {
        self.has_passed@[player]
    }

    /// The key for seat `player` holding the top set.
    pub closed spec fn top_set_player_key(&self, player: int) -> u64 {
        self.top_set_player@[player]
    }

    /// The key for a top set of rank `rank` (from 1 to 17).
    pub closed spec fn top_set_rank_key(&self, rank: int) -> u64 {
        self.top_set_rank@[rank - 1]
    }

    /// The key for a top set of `number` cards (from 1 to 35).
    pub closed spec fn top_set_count_key(&self, number: int) -> u64 {
        self.top_set_count@[number - 1]
    }

    /// The table whose keys are the successive draws of SplitMix64 seeded with `seed`: for each
    /// rank and count, a player key then an opponent key; then for each seat its 99 hand-size
    /// keys, its pass key and its top-set key (101 draws a seat); then the top-set rank keys and
    /// the top-set number keys.
    pub fn new(seed: u64) -> (table: Self)
        ensures
            forall|r: int, c: int| 0 <= r < MAX_CARD_ORDINALITY && 1 <= c <= 17 ==> {
                &&& #[trigger] table.player_hand_key(r, c) == splitmix_value(seed, (2 * (17 * r + c - 1)) as nat)
                &&& table.opponent_hand_key(r, c) == splitmix_value(seed, (2 * (17 * r + c - 1) + 1) as nat)
            },
            forall|p: int, s: int| 0 <= p < MAX_PLAYERS && 1 <= s <= 99 ==>
                #[trigger] table.hand_size_key(p, s) == splitmix_value(seed, (hand_key_draws() + 101 * p + s - 1) as nat),
            forall|p: int| 0 <= p < MAX_PLAYERS ==> {
                &&& #[trigger] table.has_passed_key(p) == splitmix_value(seed, (hand_key_draws() + 101 * p + 99) as nat)
                &&& table.top_set_player_key(p) == splitmix_value(seed, (hand_key_draws() + 101 * p + 100) as nat)
            },
            forall|r: int| 1 <= r <= 17 ==>
                #[trigger] table.top_set_rank_key(r) == splitmix_value(seed, (hand_key_draws() + 101 * MAX_PLAYERS + r - 1) as nat),
            forall|n: int| 1 <= n <= 35 ==>
                #[trigger] table.top_set_count_key(n) == splitmix_value(seed, (hand_key_draws() + 101 * MAX_PLAYERS + 17 + n - 1) as nat),
    {
        let mut generator = SplitMix64::new(seed);
        proof {
            lemma_splitmix_step(seed, 0);
        }

        let mut player_hand: [[u64; 17]; MAX_CARD_ORDINALITY] = filled_array(filled_array(0u64));
        let mut opponent_hands: [[u64; 17]; MAX_CARD_ORDINALITY] = filled_array(filled_array(0u64));

        let mut i: usize = 0;
        while i < MAX_CARD_ORDINALITY
            invariant
                0 <= i <= MAX_CARD_ORDINALITY,
                generator.state == splitmix_state(seed, (2 * (17 * i)) as nat),
                forall|r: int, c: int| 0 <= r < i && 0 <= c < 17 ==>
                    #[trigger] player_hand@[r]@[c] == splitmix_value(seed, (2 * (17 * r + c)) as nat),
                forall|r: int, c: int| 0 <= r < i && 0 <= c < 17 ==>
                    #[trigger] opponent_hands@[r]@[c] == splitmix_value(seed, (2 * (17 * r + c) + 1) as nat),
            decreases MAX_CARD_ORDINALITY - i,
        {
            let mut player_row = player_hand[i];
            let mut opponent_row = opponent_hands[i];
            let mut j: usize = 0;
            while j < MAX_CARD_NUMBER - 1
                invariant
                    0 <= i < MAX_CARD_ORDINALITY,
                    0 <= j <= 17,
                    generator.state == splitmix_state(seed, (2 * (17 * i + j)) as nat),
                    forall|c: int| 0 <= c < j ==> #[trigger] player_row@[c] == splitmix_value(seed, (2 * (17 * i + c)) as nat),
                    forall|c: int| 0 <= c < j ==> #[trigger] opponent_row@[c] == splitmix_value(seed, (2 * (17 * i + c) + 1) as nat),
                decreases 17 - j,
            {
                player_row[j] = draw(&mut generator, Ghost(seed), Ghost((2 * (17 * i + j)) as nat));
                opponent_row[j] = draw(&mut generator, Ghost(seed), Ghost((2 * (17 * i + j) + 1) as nat));
                j = j + 1;
            }
            player_hand[i] = player_row;
            opponent_hands[i] = opponent_row;
            i = i + 1;
        }

        let mut hand_sizes: [[u64; 99]; MAX_PLAYERS] = filled_array(filled_array(0u64));
        let mut has_passed: [u64; MAX_PLAYERS] = filled_array(0u64);
        let mut top_set_player: [u64; MAX_PLAYERS] = filled_array(0u64);

        let mut i: usize = 0;
        while i < MAX_PLAYERS
            invariant
                0 <= i <= MAX_PLAYERS,
                generator.state == splitmix_state(seed, (hand_key_draws() + 101 * i) as nat),
                forall|p: int, s: int| 0 <= p < i && 0 <= s < 99 ==>
                    #[trigger] hand_sizes@[p]@[s] == splitmix_value(seed, (hand_key_draws() + 101 * p + s) as nat),
                forall|p: int| 0 <= p < i ==> #[trigger] has_passed@[p] == splitmix_value(seed, (hand_key_draws() + 101 * p + 99) as nat),
                forall|p: int| 0 <= p < i ==> #[trigger] top_set_player@[p] == splitmix_value(seed, (hand_key_draws() + 101 * p + 100) as nat),
            decreases MAX_PLAYERS - i,
        {
            let mut sizes_row = hand_sizes[i];
            let mut j: usize = 0;
            while j < ZOBRIST_HAND_SIZE_MAX - 1
                invariant
                    0 <= i < MAX_PLAYERS,
                    0 <= j <= 99,
                    generator.state == splitmix_state(seed, (hand_key_draws() + 101 * i + j) as nat),
                    forall|s: int| 0 <= s < j ==>
                        #[trigger] sizes_row@[s] == splitmix_value(seed, (hand_key_draws() + 101 * i + s) as nat),
                decreases 99 - j,
            {
                sizes_row[j] = draw(&mut generator, Ghost(seed), Ghost((hand_key_draws() + 101 * i + j) as nat));
                j = j + 1;
            }
            hand_sizes[i] = sizes_row;
            has_passed[i] = draw(&mut generator, Ghost(seed), Ghost((hand_key_draws() + 101 * i + 99) as nat));
            top_set_player[i] = draw(&mut generator, Ghost(seed), Ghost((hand_key_draws() + 101 * i + 100) as nat));
            i = i + 1;
        }

        let mut top_set_rank: [u64; 17] = filled_array(0u64);
        let mut i: usize = 0;
        while i < MAX_CARD_ORDINALITY - 1
            invariant
                0 <= i <= 17,
                generator.state == splitmix_state(seed, (hand_key_draws() + 101 * MAX_PLAYERS + i) as nat),
                forall|r: int| 0 <= r < i ==>
                    #[trigger] top_set_rank@[r] == splitmix_value(seed, (hand_key_draws() + 101 * MAX_PLAYERS + r) as nat),
            decreases 17 - i,
        {
            top_set_rank[i] = draw(&mut generator, Ghost(seed), Ghost((hand_key_draws() + 101 * MAX_PLAYERS + i) as nat));
            i = i + 1;
        }

        let mut top_set_count: [u64; 35] = filled_array(0u64);
        let mut i: usize = 0;
        while i < MAX_TOTAL_PLAY - 1
            invariant
                0 <= i <= 35,
                generator.state == splitmix_state(seed, (hand_key_draws() + 101 * MAX_PLAYERS + 17 + i) as nat),
                forall|n: int| 0 <= n < i ==>
                    #[trigger] top_set_count@[n] == splitmix_value(seed, (hand_key_draws() + 101 * MAX_PLAYERS + 17 + n) as nat),
            decreases 35 - i,
        {
            top_set_count[i] = draw(&mut generator, Ghost(seed), Ghost((hand_key_draws() + 101 * MAX_PLAYERS + 17 + i) as nat));
            i = i + 1;
        }

        Self {
            player_hand: player_hand,
            opponent_hand: opponent_hands,
            hand_sizes: hand_sizes,
            has_passed: has_passed,
            top_set_player: top_set_player,
            top_set_rank: top_set_rank,
            top_set_count: top_set_count,
        }
    }
}

impl ZobristTable {
    /// The hash after the counts of the ranks below `k`: for each rank, the key of the player's
    /// count and then the key of the opponents' count, where they are not zero.
    pub open spec fn hash_ranks(&self, info: NormalizedIncompleteInformation, k: nat) -> u64
        decreases k,
    {
        if k == 0 {
            0
        } else {
            let r = k - 1;
            let h = self.hash_ranks(info, (k - 1) as nat);
            let player_count = info.player_hand.0.count(r);
            let opponent_count = info.opponent_cards.0.count(r);
            let h1 = if player_count > 0 { h ^ self.player_hand_key(r, player_count as int) } else { h };
            if opponent_count > 0 { h1 ^ self.opponent_hand_key(r, opponent_count as int) } else { h1 }
        }
    }

    /// `start` followed by the keys of the non-zero hand sizes of the seats below `k`.
    pub open spec fn hash_sizes(&self, info: NormalizedIncompleteInformation, k: nat, start: u64) -> u64
        decreases k,
    {
        if k == 0 {
            start
        } else {
            let p = k - 1;
            let h = self.hash_sizes(info, (k - 1) as nat, start);
            let size = info.hand_sizes.size(p);
            if size > 0 { h ^ self.hand_size_key(p, size as int) } else { h }
        }
    }

    /// `start` followed by the pass keys of the seats below `k` that have passed.
    pub open spec fn hash_passes(&self, info: NormalizedIncompleteInformation, k: nat, start: u64) -> u64
        decreases k,
    {
        if k == 0 {
            start
        } else {
            let p = k - 1;
            let h = self.hash_passes(info, (k - 1) as nat, start);
            if info.trick.0.has_passed.at(p) { h ^ self.has_passed_key(p) } else { h }
        }
    }

    /// The hash of `info`: the keys of its rank counts, hand sizes and passes, then the keys of
    /// the seat, rank and number of its top set where there is one, combined with XOR.
    pub open spec fn spec_hash(&self, info: NormalizedIncompleteInformation) -> u64 {
        let h = self.hash_passes(
            info,
            MAX_PLAYERS as nat,
            self.hash_sizes(info, MAX_PLAYERS as nat, self.hash_ranks(info, MAX_CARD_ORDINALITY as nat)),
        );
        match info.trick.0.top_set {
            Some(top_set) => h ^ self.top_set_player_key(top_set.player.0 as int) ^ self.top_set_rank_key(top_set.rank.0 as int)
                ^ self.top_set_count_key(top_set.number.0 as int),
            None => h,
        }
    }

    /// The Zobrist hash of `normalized_information`, for counts of at most 17 of a rank, hand
    /// sizes of at most 99, and a top set of a non-wild rank and at most 35 cards.
    pub fn hash(&self, normalized_information: &NormalizedIncompleteInformation) -> (hash: ZobristHash)
        requires
            forall|r: int| 0 <= r < MAX_CARD_ORDINALITY ==> #[trigger] normalized_information.player_hand.0.count(r) <= 17,
            forall|r: int| 0 <= r < MAX_CARD_ORDINALITY ==> #[trigger] normalized_information.opponent_cards.0.count(r) <= 17,
            forall|p: int| 0 <= p < MAX_PLAYERS ==> #[trigger] normalized_information.hand_sizes.size(p) <= 99,
            normalized_information.trick.0.top_set matches Some(top_set) ==> {
                &&& top_set.player.0 < MAX_PLAYERS
                &&& 1 <= top_set.rank.0 <= 17
                &&& 1 <= top_set.number.0 <= 35
            },
        ensures
            hash.0 == self.spec_hash(*normalized_information),
    {
        let info = normalized_information;
        let mut hash: u64 = 0;

        let mut r: usize = 0;
        while r < MAX_CARD_ORDINALITY
            invariant
                0 <= r <= MAX_CARD_ORDINALITY,
                hash == self.hash_ranks(*info, r as nat),
                forall|r: int| 0 <= r < MAX_CARD_ORDINALITY ==> #[trigger] info.player_hand.0.count(r) <= 17,
                forall|r: int| 0 <= r < MAX_CARD_ORDINALITY ==> #[trigger] info.opponent_cards.0.count(r) <= 17,
            decreases MAX_CARD_ORDINALITY - r,
        {
            let player_count = info.player_hand.0.0[r].0;
            assert(info.player_hand.0.count(r as int) <= 17);
            if player_count > 0 {
                hash = hash ^ self.player_hand[r][player_count - 1];
            }
            let opponent_count = info.opponent_cards.0.0[r].0;
            assert(info.opponent_cards.0.count(r as int) <= 17);
            if opponent_count > 0 {
                hash = hash ^ self.opponent_hand[r][opponent_count - 1];
            }
            r = r + 1;
        }

        let mut p: usize = 0;
        while p < MAX_PLAYERS
            invariant
                0 <= p <= MAX_PLAYERS,
                hash == self.hash_sizes(*info, p as nat, self.hash_ranks(*info, MAX_CARD_ORDINALITY as nat)),
                forall|p: int| 0 <= p < MAX_PLAYERS ==> #[trigger] info.hand_sizes.size(p) <= 99,
            decreases MAX_PLAYERS - p,
        {
            let hand_size = info.hand_sizes.0.0[p];
            assert(info.hand_sizes.size(p as int) <= 99);
            if hand_size > 0 {
                hash = hash ^ self.hand_sizes[p][hand_size - 1];
            }
            p = p + 1;
        }

        let ghost after_sizes = hash;
        let mut p: usize = 0;
        while p < MAX_PLAYERS
            invariant
                0 <= p <= MAX_PLAYERS,
                hash == self.hash_passes(*info, p as nat, after_sizes),
            decreases MAX_PLAYERS - p,
        {
            if info.trick.0.has_passed.0[p] {
                hash = hash ^ self.has_passed[p];
            }
            p = p + 1;
        }

        match info.trick.0.top_set {
            Some(top_set) => {
                hash = hash ^ self.top_set_player[top_set.player.0];
                hash = hash ^ self.top_set_rank[top_set.rank.0 - 1];
                hash = hash ^ self.top_set_count[top_set.number.0 - 1];
            },
            None => {},
        }

        ZobristHash(hash)
    }
}

impl ZobristTable {
    proof fn lemma_hash_ranks_depend_on_the_hands(&self, a: NormalizedIncompleteInformation, b: NormalizedIncompleteInformation, k: nat)
        requires
            a.player_hand == b.player_hand,
            a.opponent_cards == b.opponent_cards,
        ensures
            self.hash_ranks(a, k) == self.hash_ranks(b, k),
        decreases k,
    {
        if k > 0 {
            self.lemma_hash_ranks_depend_on_the_hands(a, b, (k - 1) as nat);
        }
    }

    proof fn lemma_hash_sizes_depend_on_the_sizes(&self, a: NormalizedIncompleteInformation, b: NormalizedIncompleteInformation, k: nat, start: u64)
        requires
            a.hand_sizes == b.hand_sizes,
        ensures
            self.hash_sizes(a, k, start) == self.hash_sizes(b, k, start),
        decreases k,
    {
        if k > 0 {
            self.lemma_hash_sizes_depend_on_the_sizes(a, b, (k - 1) as nat, start);
        }
    }

    proof fn lemma_hash_passes_toggle(
        &self,
        a: NormalizedIncompleteInformation,
        b: NormalizedIncompleteInformation,
        p: int,
        k: nat,
        start: u64,
    )
        requires
            0 <= p < MAX_PLAYERS,
            k <= MAX_PLAYERS,
            b.trick.0.has_passed.at(p) != a.trick.0.has_passed.at(p),
            forall|q: int| 0 <= q < MAX_PLAYERS && q != p ==> #[trigger] b.trick.0.has_passed.at(q) == a.trick.0.has_passed.at(q),
        ensures
            k <= p ==> self.hash_passes(b, k, start) == self.hash_passes(a, k, start),
            k > p ==> self.hash_passes(b, k, start) == self.hash_passes(a, k, start) ^ self.has_passed_key(p),
        decreases k,
    {
        if k > 0 {
            let q = k - 1;
            self.lemma_hash_passes_toggle(a, b, p, (k - 1) as nat, start);
            let ha = self.hash_passes(a, (k - 1) as nat, start);
            let key = self.has_passed_key(p);
            let kq = self.has_passed_key(q);
            lemma_xor_reorder(ha, key, kq);
            if q < p {
                assert(b.trick.0.has_passed.at(q) == a.trick.0.has_passed.at(q));
            } else if q > p {
                assert(b.trick.0.has_passed.at(q) == a.trick.0.has_passed.at(q));
            }
        }
    }

    /// Flipping one seat's pass flag, and nothing else, changes the hash by exactly that seat's
    /// pass key: states that differ in who has passed get different hashes, and the hash of
    /// the one is that of the other combined with the key by XOR.
    pub proof fn law_hash_of_a_toggled_pass(
        &self,
        info: NormalizedIncompleteInformation,
        toggled: NormalizedIncompleteInformation,
        p: int,
    )
        requires
            0 <= p < MAX_PLAYERS,
            toggled.player_hand == info.player_hand,
            toggled.opponent_cards == info.opponent_cards,
            toggled.hand_sizes == info.hand_sizes,
            toggled.trick.0.top_set == info.trick.0.top_set,
            toggled.trick.0.has_passed.at(p) != info.trick.0.has_passed.at(p),
            forall|q: int| 0 <= q < MAX_PLAYERS && q != p ==> #[trigger] toggled.trick.0.has_passed.at(q) == info.trick.0.has_passed.at(q),
        ensures
            self.spec_hash(toggled) == self.spec_hash(info) ^ self.has_passed_key(p),
    {
        self.lemma_hash_ranks_depend_on_the_hands(info, toggled, MAX_CARD_ORDINALITY as nat);
        let ranks = self.hash_ranks(info, MAX_CARD_ORDINALITY as nat);
        self.lemma_hash_sizes_depend_on_the_sizes(info, toggled, MAX_PLAYERS as nat, ranks);
        let sizes = self.hash_sizes(info, MAX_PLAYERS as nat, ranks);
        self.lemma_hash_passes_toggle(info, toggled, p, MAX_PLAYERS as nat, sizes);
        let h = self.hash_passes(info, MAX_PLAYERS as nat, sizes);
        let key = self.has_passed_key(p);
        match info.trick.0.top_set {
            Some(top_set) => {
                let a = self.top_set_player_key(top_set.player.0 as int);
                let b = self.top_set_rank_key(top_set.rank.0 as int);
                let c = self.top_set_count_key(top_set.number.0 as int);
                lemma_xor_moves_to_the_end(h, key, a, b, c);
            },
            None => {},
        }
    }
}

/// XOR with a key twice gives the value back, and two keys may be applied in either order.
proof fn lemma_xor_reorder(h: u64, key: u64, other: u64)
    by (bit_vector)
    ensures
        (h ^ key) ^ key == h,
        (h ^ key) ^ other == (h ^ other) ^ key,
{
}

proof fn lemma_xor_moves_to_the_end(h: u64, key: u64, a: u64, b: u64, c: u64)
    by (bit_vector)
    ensures
        (h ^ key) ^ a ^ b ^ c == (h ^ a ^ b ^ c) ^ key,
{
}

} // verus!
