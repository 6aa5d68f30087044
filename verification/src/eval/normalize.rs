use vstd::prelude::*;
use vstd::string::StringExecFns;

use crate::consts::{MAX_CARD_ORDINALITY, MAX_PLAYERS};
use crate::formatting::{card_rank_text, rank_debug_text};
use crate::eval::actions::{ActionMask, MoveID, MoveIDError, NUM_ACTIONS, spec_play_id};
use crate::game::actions::{TopSet, Trick};
use crate::game::collections::{HandSizes, PlayerHand, PlayerIndexed};
use crate::game::primitives::{CardCount, CardRank, PlayerID, MAX_TOTAL_PLAY};
use crate::game::state::IncompleteInformationGameState;

verus! {

/// A rank that the compression map does not know.
#[derive(Debug)]
pub enum NormalizationError {
    RankCompressionError(String),
    RankDecompressionError(String),
}

/// The message of a rank that cannot be compressed.
pub open spec fn compress_error_text(rank: nat) -> Seq<char> {
    "Attempted to compress CardRank: "@ + rank_debug_text(rank) + " which is not in map!"@
}

/// The message of a rank that cannot be decompressed.
pub open spec fn decompress_error_text(rank: nat) -> Seq<char> {
    "Attempted to decompress CardRank: "@ + rank_debug_text(rank) + " which is not in map!"@
}

fn compress_error(rank: CardRank) -> (error: NormalizationError)
    ensures
        error matches NormalizationError::RankCompressionError(m) && m@ == compress_error_text(rank.0 as nat),
{
    let mut text = String::from_str("Attempted to compress CardRank: ");
    let rank_text = card_rank_text(rank.0);
    text.append(rank_text.as_str());
    text.append(" which is not in map!");
    NormalizationError::RankCompressionError(text)
}

fn decompress_error(rank: CardRank) -> (error: NormalizationError)
    ensures
        error matches NormalizationError::RankDecompressionError(m) && m@ == decompress_error_text(rank.0 as nat),
{
    let mut text = String::from_str("Attempted to decompress CardRank: ");
    let rank_text = card_rank_text(rank.0);
    text.append(rank_text.as_str());
    text.append(" which is not in map!");
    NormalizationError::RankDecompressionError(text)
}

/// What the search sees of a state: seats counted from the player to move, ranks that nobody
/// holds squeezed out.
#[derive(Debug, Clone, Hash, PartialEq, Eq)]
pub struct NormalizedIncompleteInformation {
    pub number_of_players: usize,
    pub player_hand: RankCompressed<PlayerHand>,
    pub opponent_cards: RankCompressed<PlayerHand>,
    pub hand_sizes: HandSizes,
    pub trick: RankCompressed<Trick>,
}

/// A value whose ranks have been renumbered by a compression map.
#[derive(Debug, Clone, PartialEq, Eq, Hash)]
pub struct RankCompressed<T>(pub T);

impl<T> RankCompressed<T> {
    pub fn new_unchecked(value: T) -> (compressed: Self)
        ensures
            compressed.0 == value,
    {
        RankCompressed(value)
    }

    pub fn inner(&self) -> (value: &T)
        ensures
            *value == self.0,
    {
        &self.0
    }

    pub fn inner_mut(&mut self) -> (value: &mut T)
        ensures
            *value == old(self).0,
            final(self).0 == *final(value),
    {
        &mut self.0
    }
}

/// The renumbering of ranks that keeps the wild rank and the ranks someone holds or that the
/// top set has, in order, and drops the rest.
#[derive(Debug, Clone, Copy)]
pub struct RankCompressionMap {
    rank_original_to_compressed: [Option<CardRank>; MAX_CARD_ORDINALITY],
    rank_compressed_to_original: [Option<CardRank>; MAX_CARD_ORDINALITY],
}

/// Values whose ranks can be renumbered by a compression map and back.
pub trait RankCompressible: Sized {
    /// The values that can be renumbered.
    spec fn rank_wf(&self) -> bool;

    fn rank_compress(&self, rank_compression_map: &RankCompressionMap) -> Result<RankCompressed<Self>, NormalizationError>
        requires
            self.rank_wf(),
    ;

    fn rank_decompress(
        compressed: &RankCompressed<Self>,
        rank_compression_map: &RankCompressionMap,
    ) -> Result<Self, NormalizationError>
        requires
            compressed.0.rank_wf(),
    ;
}

/// Rank `r` (non-wild) is kept: someone holds it or the top set has it.
pub open spec fn spec_rank_kept(player_hand: PlayerHand, opponent_cards: PlayerHand, top_set: Option<TopSet>, r: int) -> bool {
    player_hand.count(r) + opponent_cards.count(r) != 0 || (top_set matches Some(t) && t.rank.0 == r)
}

/// The number of kept non-wild ranks among `1, ..., r - 1`.
pub open spec fn spec_kept_below(player_hand: PlayerHand, opponent_cards: PlayerHand, top_set: Option<TopSet>, r: int) -> nat
    decreases r,
{
    if r <= 1 {
        0
    } else {
        spec_kept_below(player_hand, opponent_cards, top_set, r - 1) + if spec_rank_kept(
            player_hand,
            opponent_cards,
            top_set,
            r - 1,
        ) {
            1nat
        } else {
            0nat
        }
    }
}

proof fn lemma_kept_below_bounds(player_hand: PlayerHand, opponent_cards: PlayerHand, top_set: Option<TopSet>, a: int, b: int)
    requires
        1 <= a <= b,
    ensures
        spec_kept_below(player_hand, opponent_cards, top_set, a) <= spec_kept_below(player_hand, opponent_cards, top_set, b),
        spec_kept_below(player_hand, opponent_cards, top_set, b) <= spec_kept_below(player_hand, opponent_cards, top_set, a) + (b - a),
        a < b && spec_rank_kept(player_hand, opponent_cards, top_set, a) ==> spec_kept_below(player_hand, opponent_cards, top_set, a) < spec_kept_below(player_hand, opponent_cards, top_set, b),
    decreases b - a,
{
    if a < b {
        lemma_kept_below_bounds(player_hand, opponent_cards, top_set, a, b - 1);
    }
}

/// Each direction of a rank renumbering undoes the other, and the wild rank stays put.
pub open spec fn spec_maps_wf(o2c: Seq<Option<CardRank>>, c2o: Seq<Option<CardRank>>) -> bool {
    &&& o2c[0] == Some(CardRank(0))
    &&& forall|r: int|
        0 <= r < MAX_CARD_ORDINALITY ==> (#[trigger] o2c[r] matches Some(c) ==> c.0 < MAX_CARD_ORDINALITY
            && c2o[c.0 as int] == Some(CardRank(r as usize)))
    &&& forall|c: int|
        0 <= c < MAX_CARD_ORDINALITY ==> (#[trigger] c2o[c] matches Some(r) ==> r.0 < MAX_CARD_ORDINALITY
            && o2c[r.0 as int] == Some(CardRank(c as usize)))
}

impl RankCompressionMap {
    /// The compressed rank of original rank `r`, if kept.
    pub closed spec fn to_compressed(self, r: int) -> Option<CardRank> {
        self.rank_original_to_compressed@[r]
    }

    /// The original rank of compressed rank `c`, if any.
    pub closed spec fn to_original(self, c: int) -> Option<CardRank> {
        self.rank_compressed_to_original@[c]
    }

    /// The map is one-to-one, each direction undoes the other, and the wild rank stays put.
    #[verifier::type_invariant]
    pub closed spec fn wf(self) -> bool {
        spec_maps_wf(self.rank_original_to_compressed@, self.rank_compressed_to_original@)
    }

    /// What `wf` says, in terms of the two directions.
    pub proof fn lemma_wf(self)
        requires
            self.wf(),
        ensures
            self.to_compressed(0) == Some(CardRank(0)),
            self.to_original(0) == Some(CardRank(0)),
            forall|r: int|
                0 <= r < MAX_CARD_ORDINALITY ==> (#[trigger] self.to_compressed(r) matches Some(c) ==> c.0
                    < MAX_CARD_ORDINALITY && self.to_original(c.0 as int) == Some(CardRank(r as usize))),
            forall|c: int|
                0 <= c < MAX_CARD_ORDINALITY ==> (#[trigger] self.to_original(c) matches Some(r) ==> r.0
                    < MAX_CARD_ORDINALITY && self.to_compressed(r.0 as int) == Some(CardRank(c as usize))),
    {
        assert(self.to_compressed(0) == Some(CardRank(0)));
    }

    /// The map built from two hands and a top set.
    pub closed spec fn built_from(self, player_hand: PlayerHand, opponent_cards: PlayerHand, top_set: Option<TopSet>) -> bool {
        &&& self.to_compressed(0) == Some(CardRank(0))
        &&& forall|r: int|
            1 <= r < MAX_CARD_ORDINALITY ==> #[trigger] self.to_compressed(r) == if spec_rank_kept(
                player_hand,
                opponent_cards,
                top_set,
                r,
            ) {
                Some(CardRank((spec_kept_below(player_hand, opponent_cards, top_set, r) + 1) as usize))
            } else {
                None::<CardRank>
            }
        &&& forall|c: int|
            0 <= c < MAX_CARD_ORDINALITY ==> (#[trigger] self.to_original(c) is Some <==> c
                <= spec_kept_below(player_hand, opponent_cards, top_set, MAX_CARD_ORDINALITY as int))
    }

    /// What `built_from` says.
    pub proof fn lemma_built_from(self, player_hand: PlayerHand, opponent_cards: PlayerHand, top_set: Option<TopSet>)
        requires
            self.built_from(player_hand, opponent_cards, top_set),
        ensures
            self.to_compressed(0) == Some(CardRank(0)),
            forall|r: int|
                1 <= r < MAX_CARD_ORDINALITY ==> #[trigger] self.to_compressed(r) == if spec_rank_kept(
                    player_hand,
                    opponent_cards,
                    top_set,
                    r,
                ) {
                    Some(CardRank((spec_kept_below(player_hand, opponent_cards, top_set, r) + 1) as usize))
                } else {
                    None::<CardRank>
                },
            forall|c: int|
                0 <= c < MAX_CARD_ORDINALITY ==> (#[trigger] self.to_original(c) is Some <==> c
                    <= spec_kept_below(player_hand, opponent_cards, top_set, MAX_CARD_ORDINALITY as int)),
    {
    }

    /// Keeps the wild rank and every non-wild rank that one of the hands holds or that the top
    /// set has, numbering the kept ranks `1, 2, ...` in their original order.
    pub fn from_hands_and_top_set(
        player_hand: &PlayerHand,
        opponent_cards: &PlayerHand,
        top_set: &Option<TopSet>,
    ) -> (map: Self)
        requires
            forall|r: int| 0 <= r < MAX_CARD_ORDINALITY ==> #[trigger] player_hand.count(r) + opponent_cards.count(r) <= MAX_TOTAL_PLAY,
        ensures
            map.wf(),
            map.built_from(*player_hand, *opponent_cards, *top_set),
    {
        let ghost ph = *player_hand;
        let ghost oc = *opponent_cards;
        let ghost ts = *top_set;
        let mut o2c: [Option<CardRank>; MAX_CARD_ORDINALITY] = [None; MAX_CARD_ORDINALITY];
        let mut c2o: [Option<CardRank>; MAX_CARD_ORDINALITY] = [None; MAX_CARD_ORDINALITY];
        o2c[0] = Some(CardRank::wild());
        c2o[0] = Some(CardRank::wild());
        let mut compressed_index: usize = 1;
        let mut r: usize = 1;
        while r < MAX_CARD_ORDINALITY
            invariant
                1 <= r <= MAX_CARD_ORDINALITY,
                ph == *player_hand,
                oc == *opponent_cards,
                ts == *top_set,
                forall|s: int| 0 <= s < MAX_CARD_ORDINALITY ==> #[trigger] player_hand.count(s) + opponent_cards.count(s) <= MAX_TOTAL_PLAY,
                compressed_index == spec_kept_below(ph, oc, ts, r as int) + 1,
                compressed_index <= r,
                o2c@[0] == Some(CardRank(0)),
                c2o@[0] == Some(CardRank(0)),
                forall|s: int| 1 <= s < MAX_CARD_ORDINALITY ==> #[trigger] o2c@[s] == if s < r && spec_rank_kept(ph, oc, ts, s) {
                    Some(CardRank((spec_kept_below(ph, oc, ts, s) + 1) as usize))
                } else {
                    None::<CardRank>
                },
                forall|c: int| 1 <= c < MAX_CARD_ORDINALITY ==> (#[trigger] c2o@[c] is Some <==> c < compressed_index),
                forall|c: int| 1 <= c < compressed_index ==> (#[trigger] c2o@[c] matches Some(o) && 1 <= o.0 < r && o2c@[o.0 as int] == Some(CardRank(c as usize))),
            decreases MAX_CARD_ORDINALITY - r,
        {
            let rank = CardRank::new(r);
            assert(player_hand.count(r as int) + opponent_cards.count(r as int) <= MAX_TOTAL_PLAY);
            let total = player_hand.0[r].0 + opponent_cards.0[r].0;
            let top_has_rank = match top_set {
                Some(set) => set.rank.0 == r,
                None => false,
            };
            proof {
                lemma_kept_below_bounds(ph, oc, ts, r as int, r + 1);
            }
            if total == 0 && !top_has_rank {
                assert(!spec_rank_kept(ph, oc, ts, r as int));
            } else {
                assert(spec_rank_kept(ph, oc, ts, r as int));
                o2c[r] = Some(CardRank::new(compressed_index));
                c2o[compressed_index] = Some(rank);
                compressed_index = compressed_index + 1;
            }
            r = r + 1;
        }
        proof {
            assert forall|r: int| 0 <= r < MAX_CARD_ORDINALITY implies (#[trigger] o2c@[r] matches Some(c) ==> c.0
                < MAX_CARD_ORDINALITY && c2o@[c.0 as int] == Some(CardRank(r as usize))) by {
                if r >= 1 && spec_rank_kept(ph, oc, ts, r) {
                    let c: int = spec_kept_below(ph, oc, ts, r) as int + 1;
                    lemma_kept_below_bounds(ph, oc, ts, r, MAX_CARD_ORDINALITY as int);
                    lemma_kept_below_bounds(ph, oc, ts, 1, r);
                    let o = c2o@[c].unwrap();
                    if o.0 != r {
                        if o.0 < r {
                            lemma_kept_below_bounds(ph, oc, ts, o.0 as int, r);
                        } else {
                            lemma_kept_below_bounds(ph, oc, ts, r, o.0 as int);
                        }
                    }
                }
            }
            assert(spec_maps_wf(o2c@, c2o@));
        }
        RankCompressionMap { rank_original_to_compressed: o2c, rank_compressed_to_original: c2o }
    }

    /// The compressed rank of `card_rank`; an error when the rank was dropped.
    pub fn compress_rank(&self, card_rank: CardRank) -> (result: Result<RankCompressed<CardRank>, NormalizationError>)
        requires
            card_rank.wf(),
        ensures
            match self.to_compressed(card_rank.0 as int) {
                Some(c) => result matches Ok(compressed) && compressed.0 == c,
                None => result matches Err(NormalizationError::RankCompressionError(m))
                    && m@ == compress_error_text(card_rank.0 as nat),
            },
    {
        match self.rank_original_to_compressed[card_rank.0] {
            Some(rank) => Ok(RankCompressed::new_unchecked(rank)),
            None => Err(compress_error(card_rank)),
        }
    }

    /// The original rank of a compressed rank; an error when no rank maps to it.
    pub fn decompress_rank(&self, card_rank: &RankCompressed<CardRank>) -> (result: Result<CardRank, NormalizationError>)
        requires
            card_rank.0.wf(),
        ensures
            match self.to_original(card_rank.0.0 as int) {
                Some(r) => result == Ok::<CardRank, NormalizationError>(r),
                None => result matches Err(NormalizationError::RankDecompressionError(m))
                    && m@ == decompress_error_text(card_rank.0.0 as nat),
            },
    {
        match self.rank_compressed_to_original[card_rank.0.0] {
            Some(rank) => Ok(rank),
            None => Err(decompress_error(card_rank.0)),
        }
    }

    /// The compressed action of `move_id`: the pass stays the pass, a play keeps its count and
    /// gets the compressed rank; an error when the rank was dropped.
    pub fn compress_move_id(&self, move_id: MoveID) -> (result: Result<RankCompressed<MoveID>, NormalizationError>)
        requires
            move_id.wf(),
        ensures
            match spec_compress_id(*self, move_id.0 as int) {
                Some(c) => result matches Ok(id) && id.0.0 == c,
                None => result matches Err(NormalizationError::RankCompressionError(_)),
            },
    {
        proof {
            use_type_invariant(self);
            self.lemma_wf();
        }
        if move_id.0 == 0 {
            return Ok(RankCompressed::new_unchecked(MoveID::pass()));
        }
        let (count, original_rank) = move_id.to_count_and_rank();
        let compressed_rank = self.compress_rank(original_rank)?;
        match MoveID::from_count_and_rank(count, compressed_rank.0) {
            Ok(id) => Ok(RankCompressed::new_unchecked(id)),
            Err(_) => Err(compress_error(original_rank)),
        }
    }

    /// The original action of a compressed action; an error when no rank maps to its rank.
    pub fn decompress_move_id(&self, move_id: &RankCompressed<MoveID>) -> (result: Result<MoveID, NormalizationError>)
        requires
            move_id.0.wf(),
        ensures
            match spec_decompress_id(*self, move_id.0.0 as int) {
                Some(o) => result matches Ok(id) && id.0 == o,
                None => result matches Err(NormalizationError::RankDecompressionError(_)),
            },
    {
        proof {
            use_type_invariant(self);
            self.lemma_wf();
        }
        if move_id.0.0 == 0 {
            return Ok(MoveID::pass());
        }
        let (count, compressed_rank) = move_id.0.to_count_and_rank();
        let original_rank = self.decompress_rank(&RankCompressed::new_unchecked(compressed_rank))?;
        match MoveID::from_count_and_rank(count, original_rank) {
            Ok(id) => Ok(id),
            Err(_) => Err(decompress_error(compressed_rank)),
        }
    }
}

/// The compressed action of `id`, when its rank is kept.
pub open spec fn spec_compress_id(map: RankCompressionMap, id: int) -> Option<int> {
    if id == 0 {
        Some(0)
    } else {
        match map.to_compressed((id - 1) % (MAX_CARD_ORDINALITY as int)) {
            Some(c) => Some(spec_play_id((id - 1) / (MAX_CARD_ORDINALITY as int) + 1, c.0 as int)),
            None => None,
        }
    }
}

/// The original action of compressed action `id`, when its rank maps back.
pub open spec fn spec_decompress_id(map: RankCompressionMap, id: int) -> Option<int> {
    if id == 0 {
        Some(0)
    } else {
        match map.to_original((id - 1) % (MAX_CARD_ORDINALITY as int)) {
            Some(r) => Some(spec_play_id((id - 1) / (MAX_CARD_ORDINALITY as int) + 1, r.0 as int)),
            None => None,
        }
    }
}

/// Compressing and then decompressing an action gives it back, and so does the reverse.
pub proof fn lemma_compress_id_roundtrip(map: RankCompressionMap, id: int)
    requires
        map.wf(),
        0 <= id < NUM_ACTIONS,
    ensures
        spec_compress_id(map, id) matches Some(c) ==> 0 <= c < NUM_ACTIONS && spec_decompress_id(map, c) == Some(id),
        spec_decompress_id(map, id) matches Some(o) ==> 0 <= o < NUM_ACTIONS && spec_compress_id(map, o) == Some(id),
{
    map.lemma_wf();
    if id != 0 {
        let count = (id - 1) / (MAX_CARD_ORDINALITY as int) + 1;
        let rank = (id - 1) % (MAX_CARD_ORDINALITY as int);
        assert(1 <= count <= MAX_TOTAL_PLAY && 0 <= rank < MAX_CARD_ORDINALITY && spec_play_id(count, rank) == id) by {
            vstd::arithmetic::div_mod::lemma_fundamental_div_mod(id - 1, MAX_CARD_ORDINALITY as int);
        }
        if let Some(c) = map.to_compressed(rank) {
            crate::eval::actions::lemma_play_id_roundtrip(count, c.0 as int);
        }
        if let Some(r) = map.to_original(rank) {
            crate::eval::actions::lemma_play_id_roundtrip(count, r.0 as int);
        }
    }
}

/// Rank compression keeps the order of ranks: of two kept ranks, the lower one gets the lower
/// compressed rank.
pub proof fn law_rank_compression_keeps_order(
    map: RankCompressionMap,
    player_hand: PlayerHand,
    opponent_cards: PlayerHand,
    top_set: Option<TopSet>,
    r1: int,
    r2: int,
)
    requires
        map.built_from(player_hand, opponent_cards, top_set),
        0 <= r1 < r2 < MAX_CARD_ORDINALITY,
        map.to_compressed(r1) is Some,
        map.to_compressed(r2) is Some,
    ensures
        map.to_compressed(r1).unwrap().0 < map.to_compressed(r2).unwrap().0,
{
    map.lemma_built_from(player_hand, opponent_cards, top_set);
    assert(spec_rank_kept(player_hand, opponent_cards, top_set, r2));
    lemma_kept_below_bounds(player_hand, opponent_cards, top_set, 1, r2);
    if r1 >= 1 {
        lemma_kept_below_bounds(player_hand, opponent_cards, top_set, 1, r1);
        assert(spec_rank_kept(player_hand, opponent_cards, top_set, r1));
        lemma_kept_below_bounds(player_hand, opponent_cards, top_set, r1, r2);
    }
}

impl RankCompressible for CardRank {
    open spec fn rank_wf(&self) -> bool {
        self.wf()
    }

    fn rank_compress(&self, rank_compression_map: &RankCompressionMap) -> (result: Result<RankCompressed<Self>, NormalizationError>)
        ensures
            match rank_compression_map.to_compressed(self.0 as int) {
                Some(c) => result matches Ok(compressed) && compressed.0 == c,
                None => result matches Err(NormalizationError::RankCompressionError(_)),
            },
    {
        rank_compression_map.compress_rank(*self)
    }

    fn rank_decompress(
        compressed: &RankCompressed<Self>,
        rank_compression_map: &RankCompressionMap,
    ) -> (result: Result<Self, NormalizationError>)
        ensures
            match rank_compression_map.to_original(compressed.0.0 as int) {
                Some(r) => result == Ok::<CardRank, NormalizationError>(r),
                None => result matches Err(NormalizationError::RankDecompressionError(_)),
            },
    {
        rank_compression_map.decompress_rank(compressed)
    }
}

/// Every rank that `hand` holds is kept by `map`.
pub open spec fn spec_hand_compressible(map: RankCompressionMap, hand: PlayerHand) -> bool {
    forall|r: int| 0 <= r < MAX_CARD_ORDINALITY && hand.count(r) > 0 ==> (#[trigger] map.to_compressed(r)) is Some
}

/// `compressed` holds, under each compressed rank, the count of the original rank it stands for.
pub open spec fn spec_hand_compressed(map: RankCompressionMap, hand: PlayerHand, compressed: PlayerHand) -> bool {
    forall|c: int|
        0 <= c < MAX_CARD_ORDINALITY ==> #[trigger] compressed.count(c) == match map.to_original(c) {
            Some(r) => hand.count(r.0 as int),
            None => 0,
        }
}

/// Every compressed rank that `compressed` holds maps back to a rank.
pub open spec fn spec_hand_decompressible(map: RankCompressionMap, compressed: PlayerHand) -> bool {
    forall|c: int| 0 <= c < MAX_CARD_ORDINALITY && compressed.count(c) > 0 ==> (#[trigger] map.to_original(c)) is Some
}

/// `hand` holds, under each original rank, the count of the compressed rank it maps to.
pub open spec fn spec_hand_decompressed(map: RankCompressionMap, compressed: PlayerHand, hand: PlayerHand) -> bool {
    forall|r: int|
        0 <= r < MAX_CARD_ORDINALITY ==> #[trigger] hand.count(r) == match map.to_compressed(r) {
            Some(c) => compressed.count(c.0 as int),
            None => 0,
        }
}

impl RankCompressible for PlayerHand {
    open spec fn rank_wf(&self) -> bool {
        true
    }

    fn rank_compress(&self, rank_compression_map: &RankCompressionMap) -> (result: Result<RankCompressed<Self>, NormalizationError>)
        ensures
            match result {
                Ok(compressed) => spec_hand_compressible(*rank_compression_map, *self)
                    && spec_hand_compressed(*rank_compression_map, *self, compressed.0),
                Err(e) => !spec_hand_compressible(*rank_compression_map, *self)
                    && e matches NormalizationError::RankCompressionError(_),
            },
    {
        let map = *rank_compression_map;
        proof {
            use_type_invariant(rank_compression_map);
            map.lemma_wf();
        }
        let mut compressed_hand = PlayerHand::empty();
        let mut r: usize = 0;
        while r < MAX_CARD_ORDINALITY
            invariant
                r <= MAX_CARD_ORDINALITY,
                map == *rank_compression_map,
                map.wf(),
                forall|s: int| 0 <= s < r && self.count(s) > 0 ==> (#[trigger] map.to_compressed(s)) is Some,
                forall|c: int| 0 <= c < MAX_CARD_ORDINALITY ==> #[trigger] compressed_hand.count(c) == match map.to_original(c) {
                    Some(o) => if o.0 < r { self.count(o.0 as int) } else { 0 },
                    None => 0,
                },
            decreases MAX_CARD_ORDINALITY - r,
        {
            proof {
                map.lemma_wf();
            }
            let count = self.0[r];
            if count.0 > 0 {
                match rank_compression_map.rank_original_to_compressed[r] {
                    Some(c) => {
                        assert(map.to_compressed(r as int) == Some(c));
                        let ghost before = compressed_hand;
                        compressed_hand.set_count(c, count);
                        assert forall|d: int| 0 <= d < MAX_CARD_ORDINALITY implies #[trigger] compressed_hand.count(d) == match map.to_original(d) {
                            Some(o) => if o.0 < r + 1 { self.count(o.0 as int) } else { 0 },
                            None => 0,
                        } by {
                            if d != c.0 {
                                assert(before.count(d) == compressed_hand.count(d));
                                if let Some(o) = map.to_original(d) {
                                    assert(o.0 != r);
                                }
                            }
                        }
                    },
                    None => {
                        assert(map.to_compressed(r as int) is None);
                        return Err(compress_error(CardRank(r)));
                    },
                }
            } else {
                assert forall|d: int| 0 <= d < MAX_CARD_ORDINALITY implies #[trigger] compressed_hand.count(d) == match map.to_original(d) {
                    Some(o) => if o.0 < r + 1 { self.count(o.0 as int) } else { 0 },
                    None => 0,
                } by {
                    if let Some(o) = map.to_original(d) {
                        if o.0 == r {
                            assert(self.count(r as int) == 0);
                        }
                    }
                }
            }
            r = r + 1;
        }
        Ok(RankCompressed::new_unchecked(compressed_hand))
    }

    fn rank_decompress(
        compressed: &RankCompressed<Self>,
        rank_compression_map: &RankCompressionMap,
    ) -> (result: Result<Self, NormalizationError>)
        ensures
            match result {
                Ok(hand) => spec_hand_decompressible(*rank_compression_map, compressed.0)
                    && spec_hand_decompressed(*rank_compression_map, compressed.0, hand),
                Err(e) => !spec_hand_decompressible(*rank_compression_map, compressed.0)
                    && e matches NormalizationError::RankDecompressionError(_),
            },
    {
        let map = *rank_compression_map;
        proof {
            use_type_invariant(rank_compression_map);
            map.lemma_wf();
        }
        let hand = compressed.0;
        let mut uncompressed_hand = PlayerHand::empty();
        let mut c: usize = 0;
        while c < MAX_CARD_ORDINALITY
            invariant
                c <= MAX_CARD_ORDINALITY,
                map == *rank_compression_map,
                map.wf(),
                hand == compressed.0,
                forall|s: int| 0 <= s < c && hand.count(s) > 0 ==> (#[trigger] map.to_original(s)) is Some,
                forall|r: int| 0 <= r < MAX_CARD_ORDINALITY ==> #[trigger] uncompressed_hand.count(r) == match map.to_compressed(r) {
                    Some(k) => if k.0 < c { hand.count(k.0 as int) } else { 0 },
                    None => 0,
                },
            decreases MAX_CARD_ORDINALITY - c,
        {
            proof {
                map.lemma_wf();
            }
            let count = hand.0[c];
            if count.0 > 0 {
                match rank_compression_map.rank_compressed_to_original[c] {
                    Some(r) => {
                        assert(map.to_original(c as int) == Some(r));
                        let ghost before = uncompressed_hand;
                        uncompressed_hand.set_count(r, count);
                        assert forall|d: int| 0 <= d < MAX_CARD_ORDINALITY implies #[trigger] uncompressed_hand.count(d) == match map.to_compressed(d) {
                            Some(k) => if k.0 < c + 1 { hand.count(k.0 as int) } else { 0 },
                            None => 0,
                        } by {
                            if d != r.0 {
                                assert(before.count(d) == uncompressed_hand.count(d));
                                if let Some(k) = map.to_compressed(d) {
                                    assert(k.0 != c);
                                }
                            }
                        }
                    },
                    None => {
                        assert(map.to_original(c as int) is None);
                        return Err(decompress_error(CardRank(c)));
                    },
                }
            } else {
                assert forall|d: int| 0 <= d < MAX_CARD_ORDINALITY implies #[trigger] uncompressed_hand.count(d) == match map.to_compressed(d) {
                    Some(k) => if k.0 < c + 1 { hand.count(k.0 as int) } else { 0 },
                    None => 0,
                } by {
                    if let Some(k) = map.to_compressed(d) {
                        if k.0 == c {
                            assert(hand.count(c as int) == 0);
                        }
                    }
                }
            }
            c = c + 1;
        }
        Ok(uncompressed_hand)
    }
}

impl RankCompressible for Trick {
    open spec fn rank_wf(&self) -> bool {
        self.top_set matches Some(t) ==> t.wf()
    }

    fn rank_compress(&self, rank_compression_map: &RankCompressionMap) -> (result: Result<RankCompressed<Self>, NormalizationError>)
        ensures
            match self.top_set {
                None => result matches Ok(c) && c.0 == *self,
                Some(t) => match rank_compression_map.to_compressed(t.rank.0 as int) {
                    Some(r) => result matches Ok(c) && c.0.has_passed == self.has_passed
                        && c.0.top_set == Some(TopSet { player: t.player, rank: r, number: t.number }),
                    None => result matches Err(NormalizationError::RankCompressionError(_)),
                },
            },
    {
        proof {
            use_type_invariant(rank_compression_map);
            rank_compression_map.lemma_wf();
        }
        let mut rank_compressed_trick = *self;
        match rank_compressed_trick.top_set {
            Some(set) => {
                let compressed_set_rank = match rank_compression_map.compress_rank(set.rank) {
                    Ok(compressed_rank) => compressed_rank,
                    Err(_) => {
                        return Err(compress_error(set.rank));
                    },
                };
                let c = compressed_set_rank.0;
                assert(c.0 != 0) by {
                    if c.0 == 0 {
                        assert(rank_compression_map.to_original(0) == Some(CardRank(0)));
                        assert(rank_compression_map.to_original(0) == Some(set.rank));
                    }
                }
                rank_compressed_trick.top_set = Some(TopSet::new(set.player, c, set.number));
            },
            None => {},
        }
        Ok(RankCompressed::new_unchecked(rank_compressed_trick))
    }

    fn rank_decompress(
        compressed: &RankCompressed<Self>,
        rank_compression_map: &RankCompressionMap,
    ) -> (result: Result<Self, NormalizationError>)
        ensures
            match compressed.0.top_set {
                None => result matches Ok(t) && t == compressed.0,
                Some(t) => match rank_compression_map.to_compressed(t.rank.0 as int) {
                    Some(_) => result matches Ok(trick) && trick.has_passed == compressed.0.has_passed
                        && trick.top_set == Some(t),
                    None => result is Err,
                },
            },
    {
        proof {
            use_type_invariant(rank_compression_map);
            rank_compression_map.lemma_wf();
        }
        let mut rank_decompressed_trick = compressed.0;
        match rank_decompressed_trick.top_set {
            Some(set) => {
                let recompressed = rank_compression_map.compress_rank(set.rank)?;
                let decompressed_set_rank = rank_compression_map.decompress_rank(&recompressed)?;
                rank_decompressed_trick.top_set = Some(TopSet::new(set.player, decompressed_set_rank, set.number));
            },
            None => {},
        }
        Ok(rank_decompressed_trick)
    }
}

impl RankCompressible for MoveID {
    open spec fn rank_wf(&self) -> bool {
        self.wf()
    }

    fn rank_compress(&self, rank_compression_map: &RankCompressionMap) -> (result: Result<RankCompressed<Self>, NormalizationError>)
        ensures
            match spec_compress_id(*rank_compression_map, self.0 as int) {
                Some(c) => result matches Ok(id) && id.0.0 == c,
                None => result is Err,
            },
    {
        rank_compression_map.compress_move_id(*self)
    }

    fn rank_decompress(
        compressed: &RankCompressed<Self>,
        rank_compression_map: &RankCompressionMap,
    ) -> (result: Result<Self, NormalizationError>)
        ensures
            match spec_decompress_id(*rank_compression_map, compressed.0.0 as int) {
                Some(o) => result matches Ok(id) && id.0 == o,
                None => result is Err,
            },
    {
        rank_compression_map.decompress_move_id(compressed)
    }
}


impl RankCompressible for ActionMask {
    open spec fn rank_wf(&self) -> bool {
        true
    }

    fn rank_compress(&self, rank_compression_map: &RankCompressionMap) -> (result: Result<RankCompressed<Self>, NormalizationError>)
        ensures
            result matches Ok(compressed) && forall|j: int|
                0 <= j < NUM_ACTIONS ==> #[trigger] compressed.0.allows(j) == match spec_decompress_id(*rank_compression_map, j) {
                    Some(o) => self.allows(o),
                    None => false,
                },
    {
        let ghost map = *rank_compression_map;
        proof {
            use_type_invariant(rank_compression_map);
        }
        let mut compressed_action_mask = ActionMask::empty();
        let mut k: usize = 0;
        while k < NUM_ACTIONS
            invariant
                k <= NUM_ACTIONS,
                map == *rank_compression_map,
                map.wf(),
                forall|j: int|
                    0 <= j < NUM_ACTIONS ==> #[trigger] compressed_action_mask.allows(j) == match spec_decompress_id(map, j) {
                        Some(o) => o < k && self.allows(o),
                        None => false,
                    },
            decreases NUM_ACTIONS - k,
        {
            let id = MoveID::new(k);
            proof {
                lemma_compress_id_roundtrip(map, k as int);
            }
            match rank_compression_map.compress_move_id(id) {
                Ok(compressed_id) => {
                    let c = compressed_id.0;
                    let ghost before = compressed_action_mask;
                    compressed_action_mask.set_action(c, self.0[k]);
                    assert forall|j: int| 0 <= j < NUM_ACTIONS implies #[trigger] compressed_action_mask.allows(j) == match spec_decompress_id(map, j) {
                        Some(o) => o < k + 1 && self.allows(o),
                        None => false,
                    } by {
                        lemma_compress_id_roundtrip(map, j);
                        if j != c.0 {
                            assert(compressed_action_mask.allows(j) == before.allows(j));
                        }
                    }
                },
                Err(_) => {
                    assert forall|j: int| 0 <= j < NUM_ACTIONS implies #[trigger] compressed_action_mask.allows(j) == match spec_decompress_id(map, j) {
                        Some(o) => o < k + 1 && self.allows(o),
                        None => false,
                    } by {
                        lemma_compress_id_roundtrip(map, j);
                    }
                },
            }
            k = k + 1;
        }
        Ok(RankCompressed::new_unchecked(compressed_action_mask))
    }

    fn rank_decompress(
        compressed: &RankCompressed<Self>,
        rank_compression_map: &RankCompressionMap,
    ) -> (result: Result<Self, NormalizationError>)
        ensures
            result matches Ok(mask) && forall|o: int|
                0 <= o < NUM_ACTIONS ==> #[trigger] mask.allows(o) == match spec_compress_id(*rank_compression_map, o) {
                    Some(c) => compressed.0.allows(c),
                    None => false,
                },
    {
        let ghost map = *rank_compression_map;
        proof {
            use_type_invariant(rank_compression_map);
        }
        let mut decompressed_action_mask = ActionMask::empty();
        let mut k: usize = 0;
        while k < NUM_ACTIONS
            invariant
                k <= NUM_ACTIONS,
                map == *rank_compression_map,
                map.wf(),
                forall|o: int|
                    0 <= o < NUM_ACTIONS ==> #[trigger] decompressed_action_mask.allows(o) == match spec_compress_id(map, o) {
                        Some(c) => c < k && compressed.0.allows(c),
                        None => false,
                    },
            decreases NUM_ACTIONS - k,
        {
            let compressed_move_id = RankCompressed::new_unchecked(MoveID::new(k));
            proof {
                lemma_compress_id_roundtrip(map, k as int);
            }
            match rank_compression_map.decompress_move_id(&compressed_move_id) {
                Ok(decompressed_id) => {
                    let ghost before = decompressed_action_mask;
                    decompressed_action_mask.set_action(decompressed_id, compressed.0.0[k]);
                    assert forall|o: int| 0 <= o < NUM_ACTIONS implies #[trigger] decompressed_action_mask.allows(o) == match spec_compress_id(map, o) {
                        Some(c) => c < k + 1 && compressed.0.allows(c),
                        None => false,
                    } by {
                        lemma_compress_id_roundtrip(map, o);
                        if o != decompressed_id.0 {
                            assert(decompressed_action_mask.allows(o) == before.allows(o));
                        }
                    }
                },
                Err(_) => {
                    assert forall|o: int| 0 <= o < NUM_ACTIONS implies #[trigger] decompressed_action_mask.allows(o) == match spec_compress_id(map, o) {
                        Some(c) => c < k + 1 && compressed.0.allows(c),
                        None => false,
                    } by {
                        lemma_compress_id_roundtrip(map, o);
                    }
                },
            }
            k = k + 1;
        }
        Ok(decompressed_action_mask)
    }
}


/// The seat of `absolute_player` counted from `perspective_player`.
fn normalize_player_index(absolute_player: PlayerID, perspective_player: PlayerID, number_of_players: usize) -> (player: PlayerID)
    requires
        0 < number_of_players <= MAX_PLAYERS,
        absolute_player.0 < number_of_players,
        perspective_player.0 < number_of_players,
    ensures
        player.0 == (absolute_player.0 + number_of_players - perspective_player.0) % (number_of_players as int),
        player.0 < number_of_players,
{
    PlayerID::new((absolute_player.0 + number_of_players - perspective_player.0) % number_of_players)
}

/// The position that position `index` of a rotated array reads.
fn left_rotate_index(index: usize, rotation_length: usize, zero: usize) -> (rotated: usize)
    requires
        index < rotation_length,
        zero < rotation_length,
        rotation_length + rotation_length <= usize::MAX,
    ensures
        rotated == (index + zero) % (rotation_length as int),
        rotated < rotation_length,
{
    (index + zero) % rotation_length
}

/// Writes the first `rotation_length` entries of `array`, rotated left by `zero`, into `target`:
/// `target[i] = array[(i + zero) % rotation_length]`. Later entries of `target` are left alone.
pub fn left_rotate_array<T: Copy>(array: &[T], target: &mut [T], rotation_length: usize, zero: usize)
    requires
        rotation_length <= array@.len(),
        rotation_length <= old(target)@.len(),
        zero < rotation_length,
        rotation_length + rotation_length <= usize::MAX,
    ensures
        final(target)@.len() == old(target)@.len(),
        forall|i: int| 0 <= i < rotation_length ==> #[trigger] final(target)@[i] == array@[(i + zero) % (rotation_length as int)],
        forall|i: int| rotation_length <= i < old(target)@.len() ==> #[trigger] final(target)@[i] == old(target)@[i],
{
    let mut index: usize = 0;
    while index < rotation_length
        invariant
            index <= rotation_length,
            rotation_length <= array@.len(),
            zero < rotation_length,
            rotation_length + rotation_length <= usize::MAX,
            target@.len() == old(target)@.len(),
            rotation_length <= target@.len(),
            forall|i: int| 0 <= i < index ==> #[trigger] target@[i] == array@[(i + zero) % (rotation_length as int)],
            forall|i: int| index <= i < old(target)@.len() ==> #[trigger] target@[i] == old(target)@[i],
        decreases rotation_length - index,
    {
        let rotated_index = left_rotate_index(index, rotation_length, zero);
        target[index] = array[rotated_index];
        index = index + 1;
    }
}

/// `rotated` holds the first `n` entries of `values`, rotated left by `zero`, and `fill` after.
pub open spec fn spec_rotated<T>(values: Seq<T>, rotated: Seq<T>, n: int, zero: int, fill: T) -> bool {
    &&& forall|i: int| 0 <= i < n ==> #[trigger] rotated[i] == values[(i + zero) % n]
    &&& forall|i: int| n <= i < MAX_PLAYERS ==> #[trigger] rotated[i] == fill
}

/// The trick with seats counted from `current_player_number`.
fn normalize_trick(trick: &Trick, current_player_number: PlayerID, number_of_players: usize) -> (result: Result<Trick, NormalizationError>)
    requires
        0 < number_of_players <= MAX_PLAYERS,
        current_player_number.0 < number_of_players,
        trick.top_set matches Some(t) ==> t.wf() && t.player.0 < number_of_players,
    ensures
        result matches Ok(normalized) && {
            &&& match trick.top_set {
                Some(t) => normalized.top_set == Some(TopSet {
                    player: PlayerID(((t.player.0 + number_of_players - current_player_number.0) % (number_of_players as int)) as usize),
                    rank: t.rank,
                    number: t.number,
                }),
                None => normalized.top_set.is_none(),
            }
            &&& spec_rotated(trick.has_passed.0@, normalized.has_passed.0@, number_of_players as int, current_player_number.0 as int, false)
            &&& normalized.top_set matches Some(t) ==> t.wf() && t.player.0 < number_of_players
        },
{
    let top_set = match trick.top_set {
        Some(set) => {
            let normalized_player_number = normalize_player_index(set.player, current_player_number, number_of_players);
            Some(TopSet::new(normalized_player_number, set.rank, set.number))
        },
        None => None,
    };
    let mut rotated_has_passed = [false; MAX_PLAYERS];
    left_rotate_array(&trick.has_passed.0, &mut rotated_has_passed, number_of_players, current_player_number.0);
    Ok(Trick { top_set, has_passed: PlayerIndexed::new(rotated_has_passed) })
}

/// What the search works on: seats counted from the player to move, and ranks that neither hand
/// holds (and the top set does not have) squeezed out. Returns the normalized information with
/// the rank map used.
pub fn normalize_incomplete_information_state(
    incomplete_information_state: &IncompleteInformationGameState,
) -> (result: Result<(NormalizedIncompleteInformation, RankCompressionMap), NormalizationError>)
    requires
        incomplete_information_state.wf(),
        forall|r: int| 0 <= r < MAX_CARD_ORDINALITY ==> #[trigger] incomplete_information_state.player_hand.count(r)
            + incomplete_information_state.opponent_cards.count(r) <= MAX_TOTAL_PLAY,
    ensures
        result matches Ok((normalized, map)) && {
            let state = *incomplete_information_state;
            let n = state.number_of_players as int;
            let c = state.current_player_number.0 as int;
            &&& normalized.number_of_players == state.number_of_players
            &&& map.built_from(state.player_hand, state.opponent_cards, state.trick.top_set)
            &&& spec_hand_compressed(map, state.player_hand, normalized.player_hand.0)
            &&& spec_hand_compressed(map, state.opponent_cards, normalized.opponent_cards.0)
            &&& spec_rotated(state.hand_sizes.0.0@, normalized.hand_sizes.0.0@, n, c, 0usize)
            &&& spec_rotated(state.trick.has_passed.0@, normalized.trick.0.has_passed.0@, n, c, false)
            &&& match state.trick.top_set {
                Some(t) => normalized.trick.0.top_set == Some(TopSet {
                    player: PlayerID(((t.player.0 + n - c) % n) as usize),
                    rank: map.to_compressed(t.rank.0 as int).unwrap(),
                    number: t.number,
                }),
                None => normalized.trick.0.top_set.is_none(),
            }
        },
{
    let state = incomplete_information_state;
    let n = state.number_of_players;
    let mut rotated_hand_sizes = [0usize; MAX_PLAYERS];
    left_rotate_array(&state.hand_sizes.0.0, &mut rotated_hand_sizes, n, state.current_player_number.0);
    let rank_compression_map = RankCompressionMap::from_hands_and_top_set(&state.player_hand, &state.opponent_cards, &state.trick.top_set);
    proof {
        rank_compression_map.lemma_built_from(state.player_hand, state.opponent_cards, state.trick.top_set);
        assert forall|r: int| 0 <= r < MAX_CARD_ORDINALITY && state.player_hand.count(r) > 0
            implies (#[trigger] rank_compression_map.to_compressed(r)) is Some by {
            if r != 0 {
                assert(spec_rank_kept(state.player_hand, state.opponent_cards, state.trick.top_set, r));
            }
        }
        assert forall|r: int| 0 <= r < MAX_CARD_ORDINALITY && state.opponent_cards.count(r) > 0
            implies (#[trigger] rank_compression_map.to_compressed(r)) is Some by {
            if r != 0 {
                assert(spec_rank_kept(state.player_hand, state.opponent_cards, state.trick.top_set, r));
            }
        }
        if let Some(t) = state.trick.top_set {
            assert(spec_rank_kept(state.player_hand, state.opponent_cards, state.trick.top_set, t.rank.0 as int));
            assert(rank_compression_map.to_compressed(t.rank.0 as int) is Some);
        }
    }
    let normalized_player_hand = match state.player_hand.rank_compress(&rank_compression_map) {
        Ok(compressed_hand) => compressed_hand,
        Err(_) => {
            return Err(compress_error(CardRank(0)));
        },
    };
    let normalized_opponent_cards = match state.opponent_cards.rank_compress(&rank_compression_map) {
        Ok(compressed_hand) => compressed_hand,
        Err(_) => {
            return Err(compress_error(CardRank(0)));
        },
    };
    let normalized_trick = normalize_trick(&state.trick, state.current_player_number, n)?;
    let normalized_trick = normalized_trick.rank_compress(&rank_compression_map)?;
    Ok((
        NormalizedIncompleteInformation {
            number_of_players: n,
            player_hand: normalized_player_hand,
            opponent_cards: normalized_opponent_cards,
            hand_sizes: HandSizes::new(rotated_hand_sizes),
            trick: normalized_trick,
        },
        rank_compression_map,
    ))
}

} // verus!
