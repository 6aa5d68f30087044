use vstd::prelude::*;
use vstd::string::StringExecFns;

use crate::consts::{MAX_CARD_ORDINALITY, MAX_PLAYERS};
use crate::formatting::{decimal, decimal_text};
use crate::ui::editing::{
    adjust_usize, clear_text, parse_u64, parse_usize, spec_adjust, spec_parse_u64, spec_parse_usize,
};

verus! {

/// Whether the game is played against the computer or entered live from a table.
#[derive(Debug, Clone, Copy, PartialEq, Eq, Structural)]
pub enum GameMode {
    PlayComputers,
    PlayLive,
}

impl GameMode {
    /// The name shown for the mode.
    pub fn label(self) -> (label: &'static str)
        ensures
            self == GameMode::PlayComputers ==> label@ == "Play Computers"@,
            self == GameMode::PlayLive ==> label@ == "Play Live"@,
    {
        match self {
            GameMode::PlayComputers => "Play Computers",
            GameMode::PlayLive => "Play Live",
        }
    }
}

/// The part of the settings page that has the focus.
#[derive(Debug, Clone, Copy, PartialEq, Eq, Structural)]
pub enum SettingsFocus {
    Mode,
    Deck,
    Players,
    Rules,
    Start,
}

/// The row of the players panel that is selected: the number of players, or the name of a
/// seat.
#[derive(Debug, Clone, Copy, PartialEq, Eq, Structural)]
pub enum PlayerPanelSelection {
    NumberOfPlayers,
    PlayerName(usize),
}

/// A setting of the rules panel.
#[derive(Debug, Clone, Copy, PartialEq, Eq, Structural)]
pub enum SettingsField {
    InvertedOrdering,
    AiSuggestionsEnabled,
    SolverEnabled,
    ExplorationFactor,
    Temperature,
    Greediness,
    FullTreeDepth,
    NumWorlds,
    PuctRolloutsPerLeaf,
    PuctRolloutLowerBound,
    PuctRolloutUpperBound,
    PuctMatureNodeMinVisits,
    PuctCacheSize,
    RandomSeed,
}

/// The settings the rules panel lists: the two switches, and the solver's settings when the
/// solver is on.
pub open spec fn spec_visible_rules(solver_enabled: bool) -> Seq<SettingsField> {
    let switches = seq![SettingsField::AiSuggestionsEnabled, SettingsField::SolverEnabled];
    if solver_enabled {
        switches + seq![
            SettingsField::ExplorationFactor,
            SettingsField::Temperature,
            SettingsField::Greediness,
            SettingsField::FullTreeDepth,
            SettingsField::NumWorlds,
            SettingsField::PuctRolloutsPerLeaf,
            SettingsField::PuctRolloutLowerBound,
            SettingsField::PuctRolloutUpperBound,
            SettingsField::PuctMatureNodeMinVisits,
            SettingsField::PuctCacheSize,
            SettingsField::RandomSeed,
        ]
    } else {
        switches
    }
}

impl SettingsField {
    /// The settings the rules panel lists, in order: the two switches, and the solver's
    /// settings when the solver is on.
    pub fn visible_rules(solver_enabled: bool) -> (fields: Vec<Self>)
        ensures
            fields@ == spec_visible_rules(solver_enabled),
    {
        let mut fields = Vec::new();
        fields.push(Self::AiSuggestionsEnabled);
        fields.push(Self::SolverEnabled);
        if solver_enabled {
            fields.push(Self::ExplorationFactor);
            fields.push(Self::Temperature);
            fields.push(Self::Greediness);
            fields.push(Self::FullTreeDepth);
            fields.push(Self::NumWorlds);
            fields.push(Self::PuctRolloutsPerLeaf);
            fields.push(Self::PuctRolloutLowerBound);
            fields.push(Self::PuctRolloutUpperBound);
            fields.push(Self::PuctMatureNodeMinVisits);
            fields.push(Self::PuctCacheSize);
            fields.push(Self::RandomSeed);
        }
        proof {
            assert(fields@ =~= spec_visible_rules(solver_enabled));
        }
        fields
    }

    /// The name shown for the setting.
    pub fn label(self) -> (label: &'static str)
        ensures
            self == Self::InvertedOrdering ==> label@ == "Inverted Ordering"@,
            self == Self::AiSuggestionsEnabled ==> label@ == "AI Suggestions and Move Values"@,
            self == Self::SolverEnabled ==> label@ == "AI Solver"@,
            self == Self::ExplorationFactor ==> label@ == "Exploration Factor"@,
            self == Self::Temperature ==> label@ == "Temperature"@,
            self == Self::Greediness ==> label@ == "Greediness"@,
            self == Self::FullTreeDepth ==> label@ == "Full Tree Depth"@,
            self == Self::NumWorlds ==> label@ == "Number of Worlds to Consider"@,
            self == Self::PuctRolloutsPerLeaf ==> label@ == "PUCT Rollouts per Leaf"@,
            self == Self::PuctRolloutLowerBound ==> label@ == "PUCT Rollout Lower Bound"@,
            self == Self::PuctRolloutUpperBound ==> label@ == "PUCT Rollout Upper Bound"@,
            self == Self::PuctMatureNodeMinVisits ==> label@ == "PUCT Mature Node Min Visits"@,
            self == Self::PuctCacheSize ==> label@ == "PUCT Cache Size"@,
            self == Self::RandomSeed ==> label@ == "Random Seed"@,
    {
        match self {
            Self::InvertedOrdering => "Inverted Ordering",
            Self::AiSuggestionsEnabled => "AI Suggestions and Move Values",
            Self::SolverEnabled => "AI Solver",
            Self::ExplorationFactor => "Exploration Factor",
            Self::Temperature => "Temperature",
            Self::Greediness => "Greediness",
            Self::FullTreeDepth => "Full Tree Depth",
            Self::NumWorlds => "Number of Worlds to Consider",
            Self::PuctRolloutsPerLeaf => "PUCT Rollouts per Leaf",
            Self::PuctRolloutLowerBound => "PUCT Rollout Lower Bound",
            Self::PuctRolloutUpperBound => "PUCT Rollout Upper Bound",
            Self::PuctMatureNodeMinVisits => "PUCT Mature Node Min Visits",
            Self::PuctCacheSize => "PUCT Cache Size",
            Self::RandomSeed => "Random Seed",
        }
    }

    /// The setting is a switch.
    pub fn is_bool(self) -> (switch: bool)
        ensures
            switch == (self == Self::InvertedOrdering || self == Self::AiSuggestionsEnabled || self == Self::SolverEnabled),
    {
        match self {
            Self::InvertedOrdering | Self::AiSuggestionsEnabled | Self::SolverEnabled => true,
            _ => false,
        }
    }

    /// The setting takes a number with a fractional part.
    pub fn allows_decimal_text(self) -> (decimal: bool)
        ensures
            decimal == (self == Self::ExplorationFactor || self == Self::Temperature || self == Self::Greediness),
    {
        match self {
            Self::ExplorationFactor | Self::Temperature | Self::Greediness => true,
            _ => false,
        }
    }
}

/// The settings that are switches or whole numbers: all of the game's settings that the rules
/// panel edits, but for the solver's three real-valued weights.
#[derive(Debug, Clone, Copy)]
pub struct DiscreteSettings {
    pub inverted_ordering: bool,
    pub ai_suggestions_enabled: bool,
    pub solver_enabled: bool,
    pub full_tree_depth: usize,
    pub num_worlds: usize,
    pub puct_rollouts_per_leaf: usize,
    pub puct_rollout_bounds: (usize, usize),
    pub puct_mature_node_min_visits: usize,
    pub puct_node_capacity: usize,
    pub random_seed: u64,
}

/// The largest full-tree depth that can be set.
pub const MAX_FULL_TREE_DEPTH: usize = 5;
/// The largest number of worlds, of rollouts per leaf and of rollouts that can be set.
pub const MAX_SEARCH_COUNT: usize = 10_000;
/// The largest number of visits that makes a node mature.
pub const MAX_MATURE_NODE_VISITS: usize = 1_000_000;
/// The smallest and the largest node cache.
pub const MIN_NODE_CAPACITY: usize = 1_000;
pub const MAX_NODE_CAPACITY: usize = 100_000_000;

/// `value` brought into `low..=high`.
pub open spec fn spec_clamp(value: int, low: int, high: int) -> int {
    if value < low {
        low
    } else if value > high {
        high
    } else {
        value
    }
}

/// The upper rollout bound typed as `value`: at least the lower bound `lower`, then at most
/// `MAX_SEARCH_COUNT`.
pub open spec fn spec_upper_bound_from_text(value: int, lower: int) -> int {
    let raised = if value > lower { value } else { lower };
    if raised < MAX_SEARCH_COUNT { raised } else { MAX_SEARCH_COUNT as int }
}

/// `settings` after `field` is moved by `delta` steps (see `SettingsField::adjust_discrete`).
pub open spec fn spec_adjust_discrete(field: SettingsField, settings: DiscreteSettings, delta: int) -> DiscreteSettings {
    let s = settings;
    match field {
        SettingsField::InvertedOrdering => DiscreteSettings {
            inverted_ordering: if delta != 0 { !s.inverted_ordering } else { s.inverted_ordering },
            ..s
        },
        SettingsField::AiSuggestionsEnabled => DiscreteSettings {
            ai_suggestions_enabled: if delta != 0 { !s.ai_suggestions_enabled } else { s.ai_suggestions_enabled },
            ..s
        },
        SettingsField::SolverEnabled => DiscreteSettings {
            solver_enabled: if delta != 0 { !s.solver_enabled } else { s.solver_enabled },
            ..s
        },
        SettingsField::FullTreeDepth => DiscreteSettings {
            full_tree_depth: spec_adjust(s.full_tree_depth as int, delta, 1, 0, MAX_FULL_TREE_DEPTH as int) as usize,
            ..s
        },
        SettingsField::NumWorlds => DiscreteSettings {
            num_worlds: spec_adjust(s.num_worlds as int, delta, 5, 1, MAX_SEARCH_COUNT as int) as usize,
            ..s
        },
        SettingsField::PuctRolloutsPerLeaf => DiscreteSettings {
            puct_rollouts_per_leaf: spec_adjust(s.puct_rollouts_per_leaf as int, delta, 5, 1, MAX_SEARCH_COUNT as int) as usize,
            ..s
        },
        SettingsField::PuctRolloutLowerBound => DiscreteSettings {
            puct_rollout_bounds: (
                spec_adjust(s.puct_rollout_bounds.0 as int, delta, 1, 0, s.puct_rollout_bounds.1 as int) as usize,
                s.puct_rollout_bounds.1,
            ),
            ..s
        },
        SettingsField::PuctRolloutUpperBound => DiscreteSettings {
            puct_rollout_bounds: (
                s.puct_rollout_bounds.0,
                spec_adjust(
                    s.puct_rollout_bounds.1 as int,
                    delta,
                    1,
                    if s.puct_rollout_bounds.0 > 1 { s.puct_rollout_bounds.0 as int } else { 1 },
                    MAX_SEARCH_COUNT as int,
                ) as usize,
            ),
            ..s
        },
        SettingsField::PuctMatureNodeMinVisits => DiscreteSettings {
            puct_mature_node_min_visits: spec_adjust(s.puct_mature_node_min_visits as int, delta, 8, 1, MAX_MATURE_NODE_VISITS as int) as usize,
            ..s
        },
        SettingsField::PuctCacheSize => DiscreteSettings {
            puct_node_capacity: spec_adjust(s.puct_node_capacity as int, delta, 100_000, MIN_NODE_CAPACITY as int, MAX_NODE_CAPACITY as int) as usize,
            ..s
        },
        SettingsField::RandomSeed => DiscreteSettings {
            random_seed: if delta > 0 {
                if s.random_seed + delta <= u64::MAX { (s.random_seed + delta) as u64 } else { u64::MAX }
            } else if delta < 0 {
                if s.random_seed + delta >= 0 { (s.random_seed + delta) as u64 } else { 0 }
            } else {
                s.random_seed
            },
            ..s
        },
        _ => s,
    }
}

/// `settings` after the text `text` is entered for `field` (see
/// `SettingsField::set_discrete_from_text`).
pub open spec fn spec_set_discrete(field: SettingsField, settings: DiscreteSettings, text: Seq<char>) -> DiscreteSettings {
    let s = settings;
    match field {
        SettingsField::RandomSeed => match spec_parse_u64(text) {
            Some(value) => DiscreteSettings { random_seed: value, ..s },
            None => s,
        },
        _ => match spec_parse_usize(text) {
            None => s,
            Some(value) => match field {
                SettingsField::FullTreeDepth => DiscreteSettings {
                    full_tree_depth: if value < MAX_FULL_TREE_DEPTH { value } else { MAX_FULL_TREE_DEPTH },
                    ..s
                },
                SettingsField::NumWorlds => DiscreteSettings {
                    num_worlds: spec_clamp(value as int, 1, MAX_SEARCH_COUNT as int) as usize,
                    ..s
                },
                SettingsField::PuctRolloutsPerLeaf => DiscreteSettings {
                    puct_rollouts_per_leaf: spec_clamp(value as int, 1, MAX_SEARCH_COUNT as int) as usize,
                    ..s
                },
                SettingsField::PuctRolloutLowerBound => DiscreteSettings {
                    puct_rollout_bounds: (
                        if value < s.puct_rollout_bounds.1 { value } else { s.puct_rollout_bounds.1 },
                        s.puct_rollout_bounds.1,
                    ),
                    ..s
                },
                SettingsField::PuctRolloutUpperBound => DiscreteSettings {
                    puct_rollout_bounds: (
                        s.puct_rollout_bounds.0,
                        spec_upper_bound_from_text(value as int, s.puct_rollout_bounds.0 as int) as usize,
                    ),
                    ..s
                },
                SettingsField::PuctMatureNodeMinVisits => DiscreteSettings {
                    puct_mature_node_min_visits: spec_clamp(value as int, 1, MAX_MATURE_NODE_VISITS as int) as usize,
                    ..s
                },
                SettingsField::PuctCacheSize => DiscreteSettings {
                    puct_node_capacity: spec_clamp(value as int, MIN_NODE_CAPACITY as int, MAX_NODE_CAPACITY as int) as usize,
                    ..s
                },
                _ => s,
            },
        },
    }
}

impl SettingsField {
    /// Moves the setting by `delta` steps: a switch flips for any non-zero `delta`; a count
    /// moves by its step within its range (see `spec_adjust`), the rollout bounds staying
    /// ordered; the random seed moves by `delta`, saturating. The three real-valued weights are
    /// not among these settings: for them nothing changes and the result is `false`.
    pub fn adjust_discrete(self, settings: &mut DiscreteSettings, delta: isize) -> (handled: bool)
        requires
            delta != isize::MIN,
        ensures
            handled == !(self == Self::ExplorationFactor || self == Self::Temperature || self == Self::Greediness),
            *final(settings) == spec_adjust_discrete(self, *old(settings), delta as int),
    {
        match self {
            Self::InvertedOrdering => {
                if delta != 0 {
                    settings.inverted_ordering = !settings.inverted_ordering;
                }
            },
            Self::AiSuggestionsEnabled => {
                if delta != 0 {
                    settings.ai_suggestions_enabled = !settings.ai_suggestions_enabled;
                }
            },
            Self::SolverEnabled => {
                if delta != 0 {
                    settings.solver_enabled = !settings.solver_enabled;
                }
            },
            Self::ExplorationFactor | Self::Temperature | Self::Greediness => {
                return false;
            },
            Self::FullTreeDepth => {
                settings.full_tree_depth = adjust_usize(settings.full_tree_depth, delta, 1, 0, MAX_FULL_TREE_DEPTH);
            },
            Self::NumWorlds => {
                settings.num_worlds = adjust_usize(settings.num_worlds, delta, 5, 1, MAX_SEARCH_COUNT);
            },
            Self::PuctRolloutsPerLeaf => {
                settings.puct_rollouts_per_leaf = adjust_usize(settings.puct_rollouts_per_leaf, delta, 5, 1, MAX_SEARCH_COUNT);
            },
            Self::PuctRolloutLowerBound => {
                let upper = settings.puct_rollout_bounds.1;
                settings.puct_rollout_bounds.0 = adjust_usize(settings.puct_rollout_bounds.0, delta, 1, 0, upper);
            },
            Self::PuctRolloutUpperBound => {
                let lower = settings.puct_rollout_bounds.0;
                let floor = if lower > 1 { lower } else { 1 };
                settings.puct_rollout_bounds.1 = adjust_usize(settings.puct_rollout_bounds.1, delta, 1, floor, MAX_SEARCH_COUNT);
            },
            Self::PuctMatureNodeMinVisits => {
                settings.puct_mature_node_min_visits = adjust_usize(
                    settings.puct_mature_node_min_visits,
                    delta,
                    8,
                    1,
                    MAX_MATURE_NODE_VISITS,
                );
            },
            Self::PuctCacheSize => {
                settings.puct_node_capacity = adjust_usize(
                    settings.puct_node_capacity,
                    delta,
                    100_000,
                    MIN_NODE_CAPACITY,
                    MAX_NODE_CAPACITY,
                );
            },
            Self::RandomSeed => {
                if delta > 0 {
                    settings.random_seed = settings.random_seed.saturating_add(delta as u64);
                } else if delta < 0 {
                    settings.random_seed = settings.random_seed.saturating_sub((-delta) as u64);
                }
            },
        }
        true
    }

    /// Sets the setting from the typed `text`: a count takes the number, brought into its range
    /// (the lower rollout bound at most the upper one, the upper one at least the lower one);
    /// the random seed takes any `u64`; text that is not a number changes nothing, and neither
    /// does any text for a switch. The three real-valued weights are not among these settings:
    /// for them nothing changes and the result is `false`.
    pub fn set_discrete_from_text(self, settings: &mut DiscreteSettings, text: &str) -> (handled: bool)
        ensures
            handled == !(self == Self::ExplorationFactor || self == Self::Temperature || self == Self::Greediness),
            handled ==> *final(settings) == spec_set_discrete(self, *old(settings), text@),
            !handled ==> *final(settings) == *old(settings),
    {
        match self {
            Self::ExplorationFactor | Self::Temperature | Self::Greediness => {
                return false;
            },
            Self::RandomSeed => {
                if let Some(value) = parse_u64(text) {
                    settings.random_seed = value;
                }
                return true;
            },
            _ => {},
        }
        let value = match parse_usize(text) {
            Some(value) => value,
            None => return true,
        };
        match self {
            Self::FullTreeDepth => {
                settings.full_tree_depth = if value < MAX_FULL_TREE_DEPTH { value } else { MAX_FULL_TREE_DEPTH };
            },
            Self::NumWorlds => {
                settings.num_worlds = clamp_usize(value, 1, MAX_SEARCH_COUNT);
            },
            Self::PuctRolloutsPerLeaf => {
                settings.puct_rollouts_per_leaf = clamp_usize(value, 1, MAX_SEARCH_COUNT);
            },
            Self::PuctRolloutLowerBound => {
                let upper = settings.puct_rollout_bounds.1;
                settings.puct_rollout_bounds.0 = if value < upper { value } else { upper };
            },
            Self::PuctRolloutUpperBound => {
                let lower = settings.puct_rollout_bounds.0;
                let raised = if value > lower { value } else { lower };
                settings.puct_rollout_bounds.1 = if raised < MAX_SEARCH_COUNT { raised } else { MAX_SEARCH_COUNT };
            },
            Self::PuctMatureNodeMinVisits => {
                settings.puct_mature_node_min_visits = clamp_usize(value, 1, MAX_MATURE_NODE_VISITS);
            },
            Self::PuctCacheSize => {
                settings.puct_node_capacity = clamp_usize(value, MIN_NODE_CAPACITY, MAX_NODE_CAPACITY);
            },
            _ => {},
        }
        true
    }
}

/// `value` brought into `low..=high`.
fn clamp_usize(value: usize, low: usize, high: usize) -> (clamped: usize)
    requires
        low <= high,
    ensures
        clamped == spec_clamp(value as int, low as int, high as int),
{
    if value < low {
        low
    } else if value > high {
        high
    } else {
        value
    }
}

/// `after` is `before` with its cursors brought back within a game of `number_of_players` and
/// the rules that `solver_enabled` shows: the deck rank onto the last rank, a seat name onto the
/// last seat, the rules cursor onto the last rule; nothing else changes.
pub open spec fn spec_clamped(
    before: SettingsFormState,
    after: SettingsFormState,
    number_of_players: usize,
    solver_enabled: bool,
) -> bool {
    &&& after.deck_rank == if before.deck_rank < MAX_CARD_ORDINALITY - 1 {
        before.deck_rank
    } else {
        (MAX_CARD_ORDINALITY - 1) as usize
    }
    &&& after.player_selection == match before.player_selection {
        PlayerPanelSelection::PlayerName(index) => if index >= number_of_players {
            PlayerPanelSelection::PlayerName(if number_of_players > 0 { (number_of_players - 1) as usize } else { 0 })
        } else {
            before.player_selection
        },
        PlayerPanelSelection::NumberOfPlayers => PlayerPanelSelection::NumberOfPlayers,
    }
    &&& after.rules_index == if before.rules_index >= spec_visible_rules(solver_enabled).len() {
        (spec_visible_rules(solver_enabled).len() - 1) as usize
    } else {
        before.rules_index
    }
    &&& after.focus == before.focus
    &&& after.mode_cursor == before.mode_cursor
    &&& after.deck_editing == before.deck_editing
    &&& after.deck_edit_buffer == before.deck_edit_buffer
    &&& after.player_name_editing == before.player_name_editing
    &&& after.player_count_editing == before.player_count_editing
    &&& after.player_count_edit_buffer == before.player_count_edit_buffer
    &&& after.rules_editing == before.rules_editing
    &&& after.rules_edit_buffer == before.rules_edit_buffer
}

/// The cursor, the focus and the text being typed on the settings page.
#[derive(Debug, Clone)]
pub struct SettingsFormState {
    pub focus: SettingsFocus,

    pub mode_cursor: GameMode,

    pub deck_rank: usize,
    pub deck_editing: bool,
    pub deck_edit_buffer: String,

    pub player_selection: PlayerPanelSelection,
    pub player_name_editing: bool,
    pub player_count_editing: bool,
    pub player_count_edit_buffer: String,

    pub rules_index: usize,
    pub rules_editing: bool,
    pub rules_edit_buffer: String,
}

impl SettingsFormState {
    /// Nothing is being edited.
    pub open spec fn not_editing(self) -> bool {
        &&& !self.deck_editing
        &&& self.deck_edit_buffer@ == Seq::<char>::empty()
        &&& !self.player_name_editing
        &&& !self.player_count_editing
        &&& self.player_count_edit_buffer@ == Seq::<char>::empty()
        &&& !self.rules_editing
        &&& self.rules_edit_buffer@ == Seq::<char>::empty()
    }

    /// Everything but the editing is as in `other`.
    pub open spec fn same_cursors(self, other: Self) -> bool {
        &&& self.focus == other.focus
        &&& self.mode_cursor == other.mode_cursor
        &&& self.deck_rank == other.deck_rank
        &&& self.player_selection == other.player_selection
        &&& self.rules_index == other.rules_index
    }

    pub fn new() -> (state: Self)
        ensures
            state.focus == SettingsFocus::Mode,
            state.mode_cursor == GameMode::PlayComputers,
            state.deck_rank == 0,
            state.player_selection == PlayerPanelSelection::NumberOfPlayers,
            state.rules_index == 0,
            state.not_editing(),
    {
        Self {
            focus: SettingsFocus::Mode,
            mode_cursor: GameMode::PlayComputers,
            deck_rank: 0,
            deck_editing: false,
            deck_edit_buffer: String::new(),
            player_selection: PlayerPanelSelection::NumberOfPlayers,
            player_name_editing: false,
            player_count_editing: false,
            player_count_edit_buffer: String::new(),
            rules_index: 0,
            rules_editing: false,
            rules_edit_buffer: String::new(),
        }
    }

    /// Stops every edit.
    pub fn clear_editing(&mut self)
        ensures
            final(self).not_editing(),
            final(self).same_cursors(*old(self)),
    {
        self.deck_editing = false;
        clear_text(&mut self.deck_edit_buffer);
        self.player_name_editing = false;
        self.player_count_editing = false;
        clear_text(&mut self.player_count_edit_buffer);
        self.rules_editing = false;
        clear_text(&mut self.rules_edit_buffer);
    }

    /// Brings the cursors back within a game of `number_of_players` and the rules that
    /// `solver_enabled` shows: the deck rank onto the last rank, a seat name onto the last seat,
    /// the rules cursor onto the last rule.
    pub fn clamp_to_settings(&mut self, number_of_players: usize, solver_enabled: bool)
        ensures
            spec_clamped(*old(self), *final(self), number_of_players, solver_enabled),
    {
        if self.deck_rank >= MAX_CARD_ORDINALITY - 1 {
            self.deck_rank = MAX_CARD_ORDINALITY - 1;
        }
        if let PlayerPanelSelection::PlayerName(index) = self.player_selection {
            if index >= number_of_players {
                self.player_selection = PlayerPanelSelection::PlayerName(number_of_players.saturating_sub(1));
            }
        }
        let rules_len = SettingsField::visible_rules(solver_enabled).len();
        if rules_len == 0 {
            self.rules_index = 0;
        } else if self.rules_index >= rules_len {
            self.rules_index = rules_len - 1;
        }
    }

    /// The rule under the cursor, if the cursor is on a rule that `solver_enabled` shows.
    pub fn selected_rule_field(&self, solver_enabled: bool) -> (field: Option<SettingsField>)
        ensures
            field == if self.rules_index < spec_visible_rules(solver_enabled).len() {
                Some(spec_visible_rules(solver_enabled)[self.rules_index as int])
            } else {
                None
            },
    {
        let rules = SettingsField::visible_rules(solver_enabled);
        if self.rules_index < rules.len() {
            Some(rules[self.rules_index])
        } else {
            None
        }
    }

    pub fn focus_mode(&mut self)
        ensures
            final(self).not_editing(),
            final(self).focus == SettingsFocus::Mode,
            final(self).mode_cursor == old(self).mode_cursor,
            final(self).deck_rank == old(self).deck_rank,
            final(self).player_selection == old(self).player_selection,
            final(self).rules_index == old(self).rules_index,
    {
        self.clear_editing();
        self.focus = SettingsFocus::Mode;
    }

    /// The deck gets the focus, on its first rank.
    pub fn focus_deck_start(&mut self)
        ensures
            final(self).not_editing(),
            final(self).focus == SettingsFocus::Deck,
            final(self).deck_rank == 0,
            final(self).mode_cursor == old(self).mode_cursor,
            final(self).player_selection == old(self).player_selection,
            final(self).rules_index == old(self).rules_index,
    {
        self.clear_editing();
        self.focus = SettingsFocus::Deck;
        self.deck_rank = 0;
    }

    pub fn focus_players(&mut self)
        ensures
            final(self).not_editing(),
            final(self).focus == SettingsFocus::Players,
            final(self).mode_cursor == old(self).mode_cursor,
            final(self).deck_rank == old(self).deck_rank,
            final(self).player_selection == old(self).player_selection,
            final(self).rules_index == old(self).rules_index,
    {
        self.clear_editing();
        self.focus = SettingsFocus::Players;
    }

    pub fn focus_rules(&mut self)
        ensures
            final(self).not_editing(),
            final(self).focus == SettingsFocus::Rules,
            final(self).mode_cursor == old(self).mode_cursor,
            final(self).deck_rank == old(self).deck_rank,
            final(self).player_selection == old(self).player_selection,
            final(self).rules_index == old(self).rules_index,
    {
        self.clear_editing();
        self.focus = SettingsFocus::Rules;
    }

    pub fn focus_start(&mut self)
        ensures
            final(self).not_editing(),
            final(self).focus == SettingsFocus::Start,
            final(self).mode_cursor == old(self).mode_cursor,
            final(self).deck_rank == old(self).deck_rank,
            final(self).player_selection == old(self).player_selection,
            final(self).rules_index == old(self).rules_index,
    {
        self.clear_editing();
        self.focus = SettingsFocus::Start;
    }

    /// A non-zero `delta` switches between the two modes.
    pub fn move_mode_cursor(&mut self, delta: isize)
        ensures
            *final(self) == (SettingsFormState { mode_cursor: final(self).mode_cursor, ..*old(self) }),
            final(self).mode_cursor == if delta == 0 {
                old(self).mode_cursor
            } else if old(self).mode_cursor == GameMode::PlayComputers {
                GameMode::PlayLive
            } else {
                GameMode::PlayComputers
            },
            final(self).focus == old(self).focus,
            final(self).deck_rank == old(self).deck_rank,
    {
        if delta != 0 {
            self.mode_cursor = match self.mode_cursor {
                GameMode::PlayComputers => GameMode::PlayLive,
                GameMode::PlayLive => GameMode::PlayComputers,
            };
        }
    }

    /// One rank on for a positive `delta` (stopping at the last rank), one back for a negative
    /// one (stopping at the first).
    pub fn move_deck_rank(&mut self, delta: isize)
        requires
            old(self).deck_rank < usize::MAX,
        ensures
            *final(self) == (SettingsFormState { deck_rank: final(self).deck_rank, ..*old(self) }),
            final(self).deck_rank == if delta > 0 {
                if old(self).deck_rank + 1 < MAX_CARD_ORDINALITY - 1 { old(self).deck_rank + 1 } else { (MAX_CARD_ORDINALITY - 1) as int }
            } else if delta < 0 {
                if old(self).deck_rank > 0 { old(self).deck_rank - 1 } else { 0 }
            } else {
                old(self).deck_rank as int
            },
            final(self).focus == old(self).focus,
            final(self).deck_editing == old(self).deck_editing,
    {
        if delta > 0 {
            let next = self.deck_rank + 1;
            self.deck_rank = if next < MAX_CARD_ORDINALITY - 1 { next } else { MAX_CARD_ORDINALITY - 1 };
        } else if delta < 0 {
            self.deck_rank = self.deck_rank.saturating_sub(1);
        }
    }

    pub fn start_deck_editing(&mut self)
        ensures
            *final(self) == (SettingsFormState { deck_editing: final(self).deck_editing, deck_edit_buffer: final(self).deck_edit_buffer, ..*old(self) }),
            final(self).deck_editing,
            final(self).deck_edit_buffer@ == Seq::<char>::empty(),
            final(self).deck_rank == old(self).deck_rank,
            final(self).focus == old(self).focus,
    {
        self.deck_editing = true;
        clear_text(&mut self.deck_edit_buffer);
    }

    pub fn finish_deck_editing(&mut self)
        ensures
            *final(self) == (SettingsFormState { deck_editing: final(self).deck_editing, deck_edit_buffer: final(self).deck_edit_buffer, ..*old(self) }),
            !final(self).deck_editing,
            final(self).deck_edit_buffer@ == Seq::<char>::empty(),
            final(self).deck_rank == old(self).deck_rank,
            final(self).focus == old(self).focus,
    {
        self.deck_editing = false;
        clear_text(&mut self.deck_edit_buffer);
    }

    /// One row up: from the first seat to the number of players, from another seat to the
    /// seat before it. Returns whether the selection moved.
    pub fn move_player_selection_up(&mut self) -> (moved: bool)
        ensures
            *final(self) == (SettingsFormState { player_selection: final(self).player_selection, ..*old(self) }),
            moved == (old(self).player_selection != PlayerPanelSelection::NumberOfPlayers),
            final(self).player_selection == match old(self).player_selection {
                PlayerPanelSelection::NumberOfPlayers => PlayerPanelSelection::NumberOfPlayers,
                PlayerPanelSelection::PlayerName(index) => if index == 0 {
                    PlayerPanelSelection::NumberOfPlayers
                } else {
                    PlayerPanelSelection::PlayerName((index - 1) as usize)
                },
            },
            final(self).focus == old(self).focus,
    {
        match self.player_selection {
            PlayerPanelSelection::NumberOfPlayers => false,
            PlayerPanelSelection::PlayerName(index) => {
                if index == 0 {
                    self.player_selection = PlayerPanelSelection::NumberOfPlayers;
                } else {
                    self.player_selection = PlayerPanelSelection::PlayerName(index - 1);
                }
                true
            },
        }
    }

    /// One row down, within a game of `number_of_players`: from the number of players to the
    /// first seat, from a seat to the next one. Returns whether the selection moved.
    pub fn move_player_selection_down(&mut self, number_of_players: usize) -> (moved: bool)
        ensures
            *final(self) == (SettingsFormState { player_selection: final(self).player_selection, ..*old(self) }),
            final(self).player_selection == match old(self).player_selection {
                PlayerPanelSelection::NumberOfPlayers => if number_of_players > 0 {
                    PlayerPanelSelection::PlayerName(0)
                } else {
                    PlayerPanelSelection::NumberOfPlayers
                },
                PlayerPanelSelection::PlayerName(index) => if index + 1 < number_of_players {
                    PlayerPanelSelection::PlayerName((index + 1) as usize)
                } else {
                    PlayerPanelSelection::PlayerName(index)
                },
            },
            moved == (final(self).player_selection != old(self).player_selection),
            final(self).focus == old(self).focus,
    {
        match self.player_selection {
            PlayerPanelSelection::NumberOfPlayers => {
                if number_of_players > 0 {
                    self.player_selection = PlayerPanelSelection::PlayerName(0);
                    true
                } else {
                    false
                }
            },
            PlayerPanelSelection::PlayerName(index) => {
                if index < number_of_players && index + 1 < number_of_players {
                    self.player_selection = PlayerPanelSelection::PlayerName(index + 1);
                    true
                } else {
                    false
                }
            },
        }
    }

    /// Starts editing the selected row: the number of players as typed text, or a seat's name.
    pub fn start_player_editing(&mut self)
        ensures
            *final(self) == (SettingsFormState { player_name_editing: final(self).player_name_editing, player_count_editing: final(self).player_count_editing, player_count_edit_buffer: final(self).player_count_edit_buffer, ..*old(self) }),
            old(self).player_selection == PlayerPanelSelection::NumberOfPlayers ==> {
                &&& final(self).player_count_editing
                &&& final(self).player_count_edit_buffer@ == Seq::<char>::empty()
                &&& final(self).player_name_editing == old(self).player_name_editing
            },
            old(self).player_selection != PlayerPanelSelection::NumberOfPlayers ==> {
                &&& final(self).player_name_editing
                &&& final(self).player_count_editing == old(self).player_count_editing
                &&& final(self).player_count_edit_buffer == old(self).player_count_edit_buffer
            },
            final(self).player_selection == old(self).player_selection,
            final(self).focus == old(self).focus,
    {
        match self.player_selection {
            PlayerPanelSelection::NumberOfPlayers => {
                self.player_count_editing = true;
                clear_text(&mut self.player_count_edit_buffer);
            },
            PlayerPanelSelection::PlayerName(_) => {
                self.player_name_editing = true;
            },
        }
    }

    pub fn finish_player_editing(&mut self)
        ensures
            *final(self) == (SettingsFormState { player_name_editing: final(self).player_name_editing, player_count_editing: final(self).player_count_editing, player_count_edit_buffer: final(self).player_count_edit_buffer, ..*old(self) }),
            !final(self).player_name_editing,
            !final(self).player_count_editing,
            final(self).player_count_edit_buffer@ == Seq::<char>::empty(),
            final(self).player_selection == old(self).player_selection,
            final(self).focus == old(self).focus,
    {
        self.player_name_editing = false;
        self.player_count_editing = false;
        clear_text(&mut self.player_count_edit_buffer);
    }

    /// One rule up, if there is one. Returns whether the cursor moved.
    pub fn move_rules_up(&mut self) -> (moved: bool)
        ensures
            *final(self) == (SettingsFormState { rules_index: final(self).rules_index, ..*old(self) }),
            moved == (old(self).rules_index > 0),
            final(self).rules_index == if old(self).rules_index > 0 { (old(self).rules_index - 1) as usize } else { 0 },
            final(self).focus == old(self).focus,
    {
        if self.rules_index > 0 {
            self.rules_index = self.rules_index - 1;
            true
        } else {
            false
        }
    }

    /// One rule down among those that `solver_enabled` shows, if there is one. Returns whether
    /// the cursor moved.
    pub fn move_rules_down(&mut self, solver_enabled: bool) -> (moved: bool)
        ensures
            *final(self) == (SettingsFormState { rules_index: final(self).rules_index, ..*old(self) }),
            moved == (old(self).rules_index + 1 < spec_visible_rules(solver_enabled).len()),
            final(self).rules_index == if moved { (old(self).rules_index + 1) as usize } else { old(self).rules_index },
            final(self).focus == old(self).focus,
    {
        let rules_len = SettingsField::visible_rules(solver_enabled).len();
        if self.rules_index < rules_len && self.rules_index + 1 < rules_len {
            self.rules_index = self.rules_index + 1;
            true
        } else {
            false
        }
    }

    /// Enter on a rule: a switch flips at once, and the cursors are brought back within the
    /// rules that are then shown; any other rule starts being edited, from an empty text.
    /// Nothing happens when the cursor is past the rules.
    pub fn start_rule_editing(&mut self, settings: &mut DiscreteSettings, number_of_players: usize)
        ensures
            ({
                let rules = spec_visible_rules(old(settings).solver_enabled);
                if old(self).rules_index >= rules.len() {
                    *final(self) == *old(self) && *final(settings) == *old(settings)
                } else {
                    let field = rules[old(self).rules_index as int];
                    if field == SettingsField::InvertedOrdering || field == SettingsField::AiSuggestionsEnabled
                        || field == SettingsField::SolverEnabled {
                        &&& *final(settings) == spec_adjust_discrete(field, *old(settings), 1)
                        &&& spec_clamped(*old(self), *final(self), number_of_players, final(settings).solver_enabled)
                    } else {
                        &&& *final(settings) == *old(settings)
                        &&& final(self).rules_editing
                        &&& final(self).rules_edit_buffer@ == Seq::<char>::empty()
                        &&& *final(self) == (SettingsFormState {
                            rules_editing: true,
                            rules_edit_buffer: final(self).rules_edit_buffer,
                            ..*old(self)
                        })
                    }
                }
            }),
    {
        let field = match self.selected_rule_field(settings.solver_enabled) {
            Some(field) => field,
            None => return,
        };
        if field.is_bool() {
            field.adjust_discrete(settings, 1);
            self.clamp_to_settings(number_of_players, settings.solver_enabled);
            return;
        }
        self.rules_editing = true;
        clear_text(&mut self.rules_edit_buffer);
    }

    pub fn finish_rule_editing(&mut self)
        ensures
            *final(self) == (SettingsFormState { rules_editing: final(self).rules_editing, rules_edit_buffer: final(self).rules_edit_buffer, ..*old(self) }),
            !final(self).rules_editing,
            final(self).rules_edit_buffer@ == Seq::<char>::empty(),
            final(self).rules_index == old(self).rules_index,
            final(self).focus == old(self).focus,
    {
        self.rules_editing = false;
        clear_text(&mut self.rules_edit_buffer);
    }
}

/// The largest number of cards of one rank in a deck.
pub const MAX_DECK_COUNT: usize = 99;

/// Moves the count of `rank` in `deck` by `delta`, between zero and `MAX_DECK_COUNT`.
pub fn adjust_deck_count(deck: &mut [usize; MAX_CARD_ORDINALITY], rank: usize, delta: isize)
    requires
        rank < MAX_CARD_ORDINALITY,
        delta != isize::MIN,
    ensures
        final(deck)@ == old(deck)@.update(rank as int, spec_adjust(old(deck)@[rank as int] as int, delta as int, 1, 0, MAX_DECK_COUNT as int) as usize),
{
    deck[rank] = adjust_usize(deck[rank], delta, 1, 0, MAX_DECK_COUNT);
}

/// Sets the count of `rank` in `deck` to the number `text` gives, capped at `MAX_DECK_COUNT`;
/// empty text or text that is not a number changes nothing.
pub fn set_deck_count_from_text(deck: &mut [usize; MAX_CARD_ORDINALITY], rank: usize, text: &str)
    requires
        rank < MAX_CARD_ORDINALITY,
    ensures
        final(deck)@ == match spec_parse_usize(text@) {
            Some(value) => old(deck)@.update(rank as int, if value < MAX_DECK_COUNT { value } else { MAX_DECK_COUNT }),
            None => old(deck)@,
        },
{
    if text.is_empty() {
        return;
    }
    if let Some(value) = parse_usize(text) {
        deck[rank] = if value < MAX_DECK_COUNT { value } else { MAX_DECK_COUNT };
    }
}

/// The smallest number of players of a game.
pub const MIN_PLAYERS: usize = 2;

/// Moves the number of players by `delta`, between `MIN_PLAYERS` and `MAX_PLAYERS`.
pub fn adjust_number_of_players(number_of_players: usize, delta: isize) -> (adjusted: usize)
    requires
        delta != isize::MIN,
    ensures
        adjusted == spec_adjust(number_of_players as int, delta as int, 1, MIN_PLAYERS as int, MAX_PLAYERS as int),
{
    adjust_usize(number_of_players, delta, 1, MIN_PLAYERS, MAX_PLAYERS)
}

/// The number of players that `text` gives, clamped between `MIN_PLAYERS` and `MAX_PLAYERS`:
/// `None` for empty text or text that is not a number.
pub fn number_of_players_from_text(text: &str) -> (number: Option<usize>)
    ensures
        number == match spec_parse_usize(text@) {
            Some(value) => Some(if value < MIN_PLAYERS { MIN_PLAYERS } else if value > MAX_PLAYERS { MAX_PLAYERS } else { value }),
            None => None,
        },
{
    if text.is_empty() {
        return None;
    }
    match parse_usize(text) {
        Some(value) => Some(if value < MIN_PLAYERS { MIN_PLAYERS } else if value > MAX_PLAYERS { MAX_PLAYERS } else { value }),
        None => None,
    }
}

/// The name a seat gets when nobody has named it: `Player` and its number counted from one.
pub open spec fn default_player_name(seat: nat) -> Seq<char> {
    "Player "@ + decimal(seat + 1)
}

/// Fills the list of player names up to one per seat: the names already there stay, each
/// missing seat gets its default name.
pub fn ensure_player_names(player_names: &mut Vec<String>)
    ensures
        final(player_names)@.len() == if old(player_names)@.len() < MAX_PLAYERS {
            MAX_PLAYERS as nat
        } else {
            old(player_names)@.len()
        },
        forall|i: int| 0 <= i < old(player_names)@.len() ==> #[trigger] final(player_names)@[i] == old(player_names)@[i],
        forall|i: int|
            old(player_names)@.len() <= i < final(player_names)@.len() ==> #[trigger] final(player_names)@[i]@
                == default_player_name(i as nat),
{
    let ghost before = player_names@;
    while player_names.len() < MAX_PLAYERS
        invariant
            before.len() <= player_names@.len(),
            before.len() < MAX_PLAYERS ==> player_names@.len() <= MAX_PLAYERS,
            before.len() >= MAX_PLAYERS ==> player_names@ == before,
            forall|i: int| 0 <= i < before.len() ==> #[trigger] player_names@[i] == before[i],
            forall|i: int| before.len() <= i < player_names@.len() ==> #[trigger] player_names@[i]@ == default_player_name(i as nat),
        decreases MAX_PLAYERS - player_names@.len(),
    {
        let next_index = player_names.len();
        let mut name = String::from_str("Player ");
        let number = decimal_text((next_index + 1) as u64);
        name.append(number.as_str());
        player_names.push(name);
    }
}

/// How a switch reads.
pub open spec fn enabled_text(value: bool) -> Seq<char> {
    if value {
        "Enabled"@
    } else {
        "Disabled"@
    }
}

/// The value of a switch or whole-number setting as the rules panel shows it: `Enabled` or
/// `Disabled` for a switch, the number in decimal otherwise; none for the three weights, which
/// are not whole numbers.
pub open spec fn spec_discrete_value(field: SettingsField, settings: DiscreteSettings) -> Option<Seq<char>> {
    match field {
        SettingsField::InvertedOrdering => Some(enabled_text(settings.inverted_ordering)),
        SettingsField::AiSuggestionsEnabled => Some(enabled_text(settings.ai_suggestions_enabled)),
        SettingsField::SolverEnabled => Some(enabled_text(settings.solver_enabled)),
        SettingsField::ExplorationFactor | SettingsField::Temperature | SettingsField::Greediness => None,
        SettingsField::FullTreeDepth => Some(decimal(settings.full_tree_depth as nat)),
        SettingsField::NumWorlds => Some(decimal(settings.num_worlds as nat)),
        SettingsField::PuctRolloutsPerLeaf => Some(decimal(settings.puct_rollouts_per_leaf as nat)),
        SettingsField::PuctRolloutLowerBound => Some(decimal(settings.puct_rollout_bounds.0 as nat)),
        SettingsField::PuctRolloutUpperBound => Some(decimal(settings.puct_rollout_bounds.1 as nat)),
        SettingsField::PuctMatureNodeMinVisits => Some(decimal(settings.puct_mature_node_min_visits as nat)),
        SettingsField::PuctCacheSize => Some(decimal(settings.puct_node_capacity as nat)),
        SettingsField::RandomSeed => Some(decimal(settings.random_seed as nat)),
    }
}

fn enabled_value(value: bool) -> (text: String)
    ensures
        text@ == enabled_text(value),
{
    if value {
        String::from_str("Enabled")
    } else {
        String::from_str("Disabled")
    }
}

impl SettingsField {
    /// The value of a switch or whole-number setting as the rules panel shows it; see
    /// `spec_discrete_value`.
    pub fn discrete_value(self, settings: &DiscreteSettings) -> (text: Option<String>)
        ensures
            match spec_discrete_value(self, *settings) {
                Some(expected) => text matches Some(t) && t@ == expected,
                None => text is None,
            },
    {
        match self {
            Self::InvertedOrdering => Some(enabled_value(settings.inverted_ordering)),
            Self::AiSuggestionsEnabled => Some(enabled_value(settings.ai_suggestions_enabled)),
            Self::SolverEnabled => Some(enabled_value(settings.solver_enabled)),
            Self::ExplorationFactor | Self::Temperature | Self::Greediness => None,
            Self::FullTreeDepth => Some(decimal_text(settings.full_tree_depth as u64)),
            Self::NumWorlds => Some(decimal_text(settings.num_worlds as u64)),
            Self::PuctRolloutsPerLeaf => Some(decimal_text(settings.puct_rollouts_per_leaf as u64)),
            Self::PuctRolloutLowerBound => Some(decimal_text(settings.puct_rollout_bounds.0 as u64)),
            Self::PuctRolloutUpperBound => Some(decimal_text(settings.puct_rollout_bounds.1 as u64)),
            Self::PuctMatureNodeMinVisits => Some(decimal_text(settings.puct_mature_node_min_visits as u64)),
            Self::PuctCacheSize => Some(decimal_text(settings.puct_node_capacity as u64)),
            Self::RandomSeed => Some(decimal_text(settings.random_seed)),
        }
    }
}

} // verus!
