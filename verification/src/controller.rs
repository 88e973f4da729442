//! The progression controller: the thin coordination layer the host UI
//! calls. It owns the ledger, the catalog, the unlock graph, the
//! capability sets and the quest lines, and exposes earning, a gated
//! random material drop, crafting, unlocking, quest advancement, upgrades,
//! auto-progression ticks and save-state export and import.
//!
//! The engine is single-threaded and synchronous: every operation runs to
//! completion, so checks and the mutations they guard form one atomic step.

use vstd::prelude::*;
use crate::catalog::{RecipeCatalog, CraftError, craft_cost, craft_step_counts};
use crate::graph::{UnlockGraph, UnlockError, UnlockOutcome, unlock_check, find_node,
    rewards_applied, add_name, category_declared};
use crate::imap::{lookup, upsert};
use crate::ledger::{ResourceLedger, add_sat, add_to_cap, can_pay, paid, paid_one};
use crate::names::{Capabilities, NameSet, dedup};
use crate::quest::{QuestLine, req_met, gains_applied};
use crate::strutil::str_eq;
use rand::Rng;

verus! {

/// How much one capacity upgrade adds to the primary currency's ceiling.
pub const CAPACITY_STEP: u32 = 50;

/// How much one material upgrade adds to each material drop.
pub const MATERIAL_STEP: u32 = 1;

/// How much one interval upgrade takes off the auto-progression interval.
pub const INTERVAL_STEP_MS: u64 = 500;

/// The auto-progression interval is never upgraded below this.
pub const INTERVAL_FLOOR_MS: u64 = 1000;

/// What the purchasable upgrades cost, in primary currency.
#[derive(Debug, Clone, Copy, PartialEq, Eq, Structural)]
pub struct UpgradePrices {
    /// Price of one capacity upgrade.
    pub capacity: u32,
    /// Price of one material-amount upgrade.
    pub material_amount: u32,
}

/// One quest line under its identifier.
#[derive(Debug)]
pub struct QuestEntry {
    pub id: String,
    pub line: QuestLine,
}

/// The first quest line of that id, if any.
pub open spec fn find_quest(qs: Seq<QuestEntry>, id: Seq<char>) -> Option<QuestEntry>
    decreases qs.len(),
{
    if qs.len() == 0 {
        None
    } else if qs[0].id@ == id {
        Some(qs[0])
    } else {
        find_quest(qs.drop_first(), id)
    }
}

/// Why a quest request was refused.
#[derive(Debug, Clone, Copy, PartialEq, Eq)]
pub enum QuestError {
    /// No quest line of that id is loaded.
    NotFound,
}

/// Everything the engine persists; the host serializes it whole.
#[derive(Debug)]
pub struct SaveData {
    /// Resource counts, in ledger order.
    pub counts: Vec<(String, u32)>,
    /// Set capability flags, in set order.
    pub flags: Vec<String>,
    /// Unlocked research tabs, in unlock order.
    pub tabs: Vec<String>,
    /// Recipe ids unlocked by research, in unlock order.
    pub recipes: Vec<String>,
    /// Unlocked node ids, in unlock order.
    pub unlocked_nodes: Vec<String>,
    /// Per quest line, the active position.
    pub quest_positions: Vec<(String, u32)>,
    /// Primary currency earned per click.
    pub earn_amount: u32,
    /// Material gained per drop.
    pub material_amount: u32,
}

/// Addition on timers that stops at the largest representable value.
pub open spec fn add_sat_u64(a: u64, b: u64) -> u64 {
    if a + b <= u64::MAX {
        (a + b) as u64
    } else {
        u64::MAX
    }
}

/// The saved position for a quest line, if the save names it.
pub open spec fn lookup_pos(s: Seq<(Seq<char>, u32)>, id: Seq<char>) -> Option<u32> {
    lookup(s, id)
}

/// The progression engine, coordinating all parts of a session.
pub struct ProgressionController {
    /// The player's resources.
    pub ledger: ResourceLedger,
    /// The static recipe catalog.
    pub catalog: RecipeCatalog,
    /// The unlock graph and its unlocked set.
    pub graph: UnlockGraph,
    /// The session's capability flags, tabs and unlocked recipes.
    pub caps: Capabilities,
    /// The quest lines, each under its id.
    pub quests: Vec<QuestEntry>,
    /// The primary currency's capacity ceiling.
    pub capacity: u32,
    /// Primary currency earned per click or auto-progression step.
    pub earn_amount: u32,
    /// Material gained per successful drop.
    pub material_amount: u32,
    /// Percent chance, out of one hundred, of a material drop per click.
    pub drop_chance: u32,
    /// Milliseconds between auto-progression earns.
    pub auto_interval_ms: u64,
    /// Milliseconds accumulated toward the next auto-progression earn.
    pub auto_timer_ms: u64,
    /// The flag that switches auto-progression on.
    pub auto_flag: String,
    /// The research tab currently shown.
    pub current_tab: String,
    /// What the purchasable upgrades cost.
    pub prices: UpgradePrices,
}

impl ProgressionController {
    /// A fresh session over the given data: default rates, the initial tab
    /// unlocked and shown, nothing earned yet.
    pub fn new(
        ledger: ResourceLedger,
        catalog: RecipeCatalog,
        graph: UnlockGraph,
        quests: Vec<QuestEntry>,
        initial_tab: String,
        auto_flag: String,
    ) -> (c: ProgressionController)
        ensures
            c.ledger == ledger,
            c.catalog == catalog,
            c.graph == graph,
            c.quests == quests,
            c.caps.flags@ == Seq::<Seq<char>>::empty(),
            c.caps.recipes@ == Seq::<Seq<char>>::empty(),
            c.caps.tabs@ == seq![initial_tab@],
            c.caps.wf(),
            c.current_tab == initial_tab,
            c.auto_flag == auto_flag,
            c.capacity == 50 && c.earn_amount == 50 && c.material_amount == 1 && c.drop_chance
                == 50,
            c.auto_interval_ms == 30000 && c.auto_timer_ms == 0,
            c.prices == (UpgradePrices { capacity: 50, material_amount: 200 }),
    {
        let mut caps = Capabilities::new();
        caps.tabs.insert(initial_tab.as_str());
        proof {
            assert(caps.tabs@ =~= seq![initial_tab@]);
        }
        ProgressionController {
            ledger,
            catalog,
            graph,
            caps,
            quests,
            capacity: 50,
            earn_amount: 50,
            material_amount: 1,
            drop_chance: 50,
            auto_interval_ms: 30000,
            auto_timer_ms: 0,
            auto_flag,
            current_tab: initial_tab,
            prices: UpgradePrices { capacity: 50, material_amount: 200 },
        }
    }

    /// Earn primary currency: add `amount`, clamped to the capacity
    /// ceiling.
    pub fn earn_primary_currency(&mut self, amount: u32)
        ensures
            final(self).ledger.counts_seq() == upsert(
                old(self).ledger.counts_seq(),
                old(self).ledger.primary(),
                add_to_cap(
                    old(self).ledger.spec_count(old(self).ledger.primary()),
                    amount,
                    old(self).capacity,
                ),
            ),
            final(self).ledger.retired_ids() == old(self).ledger.retired_ids(),
            final(self).ledger.primary() == old(self).ledger.primary(),
            old(self).ledger.wf() ==> final(self).ledger.wf(),
            final(self).capacity == old(self).capacity,
            unchanged_but_ledger(*old(self), *final(self)),
    {
        let cap = self.capacity;
        self.ledger.add_clamped(amount, cap);
    }

    /// Roll for a material drop: with `probability_percent` chance (an
    /// integer percent against a uniform draw below one hundred), draw one
    /// of `candidates` uniformly and add the configured material amount of
    /// it; report what dropped. A zero chance or no candidates never drops.
    pub fn roll_material_drop(&mut self, probability_percent: u32, candidates: &Vec<String>) -> (r:
        Option<String>)
        ensures
            final(self).ledger.retired_ids() == old(self).ledger.retired_ids(),
            final(self).ledger.primary() == old(self).ledger.primary(),
            old(self).ledger.wf() ==> final(self).ledger.wf(),
            unchanged_but_ledger(*old(self), *final(self)),
            probability_percent >= 100 && candidates@.len() > 0 ==> r is Some,
            match r {
                None => final(self).ledger.counts_seq() == old(self).ledger.counts_seq(),
                Some(id) => {
                    &&& probability_percent > 0
                    &&& exists|k: int|
                        0 <= k < candidates@.len() && candidates.deep_view()[k] == id@
                    &&& final(self).ledger.counts_seq() == upsert(
                        old(self).ledger.counts_seq(),
                        id@,
                        add_sat(old(self).ledger.spec_count(id@), old(self).material_amount),
                    )
                },
            },
            probability_percent == 0 || candidates@.len() == 0 ==> r is None,
    {
        if candidates.len() == 0 {
            return None;
        }
        let roll = draw_index(100) as u32;
        if roll >= probability_percent {
            return None;
        }
        let k = draw_index(candidates.len());
        let amount = self.material_amount;
        self.ledger.increment_or_insert(candidates[k].as_str(), amount);
        proof {
            assert(candidates.deep_view()[k as int] == candidates@[k as int]@);
        }
        Some(candidates[k].clone())
    }

    /// Craft `item` from `category`; all-or-nothing against the ledger.
    pub fn craft(&mut self, category: &str, item: &str) -> (r: Result<(), CraftError>)
        ensures
            final(self).ledger.counts_seq() == craft_step_counts(
                old(self).catalog.cats(),
                old(self).ledger.counts_seq(),
                old(self).ledger.retired_ids(),
                category@,
                item@,
            ),
            final(self).ledger.retired_ids() == old(self).ledger.retired_ids(),
            final(self).ledger.primary() == old(self).ledger.primary(),
            old(self).ledger.wf() ==> final(self).ledger.wf(),
            unchanged_but_ledger(*old(self), *final(self)),
            match (r, craft_cost(old(self).catalog.cats(), category@, item@)) {
                (Ok(_), Some(cost)) => can_pay(
                    old(self).ledger.counts_seq(),
                    old(self).ledger.retired_ids(),
                    cost,
                ),
                (Err(CraftError::ItemNotFound), None) => true,
                (Err(CraftError::InsufficientResources), Some(cost)) => !can_pay(
                    old(self).ledger.counts_seq(),
                    old(self).ledger.retired_ids(),
                    cost,
                ),
                _ => false,
            },
    {
        self.catalog.craft(&mut self.ledger, category, item)
    }

    /// Unlock node `id`; atomic, with the full diagnosis on refusal.
    pub fn unlock(&mut self, id: &str) -> (r: Result<UnlockOutcome, UnlockError>)
        ensures
            final(self).graph.nodes_seq() == old(self).graph.nodes_seq(),
            final(self).ledger.retired_ids() == old(self).ledger.retired_ids(),
            final(self).ledger.primary() == old(self).ledger.primary(),
            old(self).ledger.wf() ==> final(self).ledger.wf(),
            old(self).graph.wf() ==> final(self).graph.wf(),
            old(self).caps.wf() ==> final(self).caps.wf(),
            unchanged_but_progress(*old(self), *final(self)),
            ({
                let chk = unlock_check(
                    old(self).graph.nodes_seq(),
                    old(self).graph.unlocked_ids(),
                    old(self).ledger.counts_seq(),
                    old(self).ledger.retired_ids(),
                    id@,
                );
                match r {
                    Ok(UnlockOutcome::Unlocked) => {
                        &&& chk is Approved
                        &&& final(self).graph.unlocked_ids() == old(self).graph.unlocked_ids().push(id@)
                        &&& match find_node(old(self).graph.nodes_seq(), id@) {
                            Some(n) => {
                                &&& final(self).ledger.counts_seq() == paid(
                                    old(self).ledger.counts_seq(),
                                    old(self).ledger.retired_ids(),
                                    n.cost.deep_view(),
                                )
                                &&& ({
                                    let t = rewards_applied(
                                        old(self).caps.flags@,
                                        old(self).caps.tabs@,
                                        old(self).caps.recipes@,
                                        n.rewards.deep_view(),
                                    );
                                    &&& final(self).caps.flags@ == t.0
                                    &&& final(self).caps.tabs@ == t.1
                                    &&& final(self).caps.recipes@ == t.2
                                })
                            },
                            None => false,
                        }
                    },
                    Ok(UnlockOutcome::AlreadyUnlocked) => false,
                    Err(e) => {
                        &&& final(self).graph.unlocked_ids() == old(self).graph.unlocked_ids()
                        &&& final(self).ledger.counts_seq() == old(self).ledger.counts_seq()
                        &&& final(self).caps.flags@ == old(self).caps.flags@
                        &&& final(self).caps.tabs@ == old(self).caps.tabs@
                        &&& final(self).caps.recipes@ == old(self).caps.recipes@
                        &&& match e {
                            UnlockError::NotFound => chk is Absent,
                            UnlockError::AlreadyUnlocked => chk is Already,
                            UnlockError::PrerequisitesMissing(m) => chk matches
                                crate::graph::UnlockCheck::Missing(miss) && m.deep_view() == miss,
                            UnlockError::InsufficientResources(s) => chk matches
                                crate::graph::UnlockCheck::Unaffordable(sf) && s.deep_view() == sf,
                        }
                    },
                }
            }),
    {
        self.graph.unlock(&mut self.ledger, &mut self.caps, id)
    }

    /// Advance the quest line `line_id` by one stage if its turn-in is
    /// covered; a terminal line reports false and mutates nothing.
    pub fn advance_quest(&mut self, line_id: &str) -> (r: Result<bool, QuestError>)
        ensures
            final(self).ledger.retired_ids() == old(self).ledger.retired_ids(),
            final(self).ledger.primary() == old(self).ledger.primary(),
            old(self).ledger.wf() ==> final(self).ledger.wf(),
            final(self).caps.tabs@ == old(self).caps.tabs@,
            final(self).caps.recipes@ == old(self).caps.recipes@,
            old(self).caps.wf() ==> final(self).caps.wf(),
            unchanged_but_quests(*old(self), *final(self)),
            final(self).quests@.len() == old(self).quests@.len(),
            match r {
                Err(QuestError::NotFound) => {
                    &&& find_quest(old(self).quests@, line_id@) is None
                    &&& final(self).quests@ == old(self).quests@
                    &&& final(self).ledger.counts_seq() == old(self).ledger.counts_seq()
                    &&& final(self).caps.flags@ == old(self).caps.flags@
                },
                Ok(b) => exists|i: int|
                    {
                        &&& 0 <= i < old(self).quests@.len()
                        &&& (#[trigger] old(self).quests@[i]).id@ == line_id@
                        &&& forall|j: int| 0 <= j < i ==> old(self).quests@[j].id@ != line_id@
                        &&& forall|k: int|
                            0 <= k < old(self).quests@.len() && k != i ==> final(self).quests@[k]
                                == old(self).quests@[k]
                        &&& final(self).quests@[i].id == old(self).quests@[i].id
                        &&& final(self).quests@[i].line.stages_seq() == old(self).quests@[i].line.stages_seq()
                        &&& ({
                            let line0 = old(self).quests@[i].line;
                            let fired = !line0.spec_complete() && req_met(
                                old(self).ledger.counts_seq(),
                                old(self).ledger.retired_ids(),
                                line0.stages_seq()[line0.position()].requirement@,
                            );
                            if fired {
                                let st = line0.stages_seq()[line0.position()];
                                let t = gains_applied(
                                    paid_one(
                                        old(self).ledger.counts_seq(),
                                        old(self).ledger.retired_ids(),
                                        st.requirement@,
                                    ),
                                    old(self).caps.flags@,
                                    st.rewards.deep_view(),
                                );
                                &&& b
                                &&& final(self).quests@[i].line.position() == line0.position() + 1
                                &&& final(self).ledger.counts_seq() == t.0
                                &&& final(self).caps.flags@ == t.1
                            } else {
                                &&& !b
                                &&& final(self).quests@[i].line.position() == line0.position()
                                &&& final(self).ledger.counts_seq() == old(self).ledger.counts_seq()
                                &&& final(self).caps.flags@ == old(self).caps.flags@
                            }
                        })
                    },
            },
    {
        let qi = match find_quest_idx(&self.quests, line_id) {
            Some(i) => i,
            None => {
                return Err(QuestError::NotFound);
            },
        };
        let b = self.quests[qi].line.try_advance(&mut self.ledger, &mut self.caps);
        Ok(b)
    }

    /// Accumulate `delta_ms` toward auto-progression. While the flag that
    /// enables it is set, reaching the interval performs exactly one
    /// automatic earn and subtracts the interval — overshoot carries
    /// forward. With the flag unset nothing moves.
    pub fn tick(&mut self, delta_ms: u64)
        ensures
            final(self).ledger.retired_ids() == old(self).ledger.retired_ids(),
            final(self).ledger.primary() == old(self).ledger.primary(),
            old(self).ledger.wf() ==> final(self).ledger.wf(),
            unchanged_but_timer(*old(self), *final(self)),
            !old(self).caps.flags@.contains(old(self).auto_flag@) ==> final(self).auto_timer_ms
                == old(self).auto_timer_ms && final(self).ledger.counts_seq() == old(self).ledger.counts_seq(),
            old(self).caps.flags@.contains(old(self).auto_flag@) ==> ({
                let grown = add_sat_u64(old(self).auto_timer_ms, delta_ms);
                if grown >= old(self).auto_interval_ms {
                    &&& final(self).auto_timer_ms == grown - old(self).auto_interval_ms
                    &&& final(self).ledger.counts_seq() == upsert(
                        old(self).ledger.counts_seq(),
                        old(self).ledger.primary(),
                        add_to_cap(
                            old(self).ledger.spec_count(old(self).ledger.primary()),
                            old(self).earn_amount,
                            old(self).capacity,
                        ),
                    )
                } else {
                    &&& final(self).auto_timer_ms == grown
                    &&& final(self).ledger.counts_seq() == old(self).ledger.counts_seq()
                }
            }),
    {
        if !self.caps.flags.contains(self.auto_flag.as_str()) {
            return ;
        }
        let grown = if self.auto_timer_ms <= u64::MAX - delta_ms {
            self.auto_timer_ms + delta_ms
        } else {
            u64::MAX
        };
        if grown >= self.auto_interval_ms {
            self.auto_timer_ms = grown - self.auto_interval_ms;
            let amount = self.earn_amount;
            let cap = self.capacity;
            self.ledger.add_clamped(amount, cap);
        } else {
            self.auto_timer_ms = grown;
        }
    }

    /// Buy one capacity upgrade: debit exactly its price from the primary
    /// currency and raise the ceiling by [`CAPACITY_STEP`].
    pub fn buy_capacity_upgrade(&mut self) -> (r: bool)
        ensures
            r == (old(self).ledger.spec_count(old(self).ledger.primary())
                >= old(self).prices.capacity),
            final(self).ledger.retired_ids() == old(self).ledger.retired_ids(),
            final(self).ledger.primary() == old(self).ledger.primary(),
            old(self).ledger.wf() ==> final(self).ledger.wf(),
            unchanged_but_upgrades(*old(self), *final(self)),
            final(self).material_amount == old(self).material_amount,
            final(self).auto_interval_ms == old(self).auto_interval_ms,
            r ==> final(self).ledger.counts_seq() == upsert(
                old(self).ledger.counts_seq(),
                old(self).ledger.primary(),
                (old(self).ledger.spec_count(old(self).ledger.primary())
                    - old(self).prices.capacity) as u32,
            ) && final(self).capacity == add_sat(old(self).capacity, CAPACITY_STEP),
            !r ==> final(self).ledger.counts_seq() == old(self).ledger.counts_seq() && final(self).capacity == old(self).capacity,
    {
        let pid = self.ledger.primary_name();
        let have = self.ledger.get(pid.as_str());
        let price = self.prices.capacity;
        if have < price {
            return false;
        }
        self.ledger.set_count(pid.as_str(), have - price);
        self.capacity = if self.capacity <= u32::MAX - CAPACITY_STEP {
            self.capacity + CAPACITY_STEP
        } else {
            u32::MAX
        };
        true
    }

    /// Buy one material upgrade: debit exactly its price from the primary
    /// currency and raise the material amount by [`MATERIAL_STEP`].
    pub fn buy_material_upgrade(&mut self) -> (r: bool)
        ensures
            r == (old(self).ledger.spec_count(old(self).ledger.primary())
                >= old(self).prices.material_amount),
            final(self).ledger.retired_ids() == old(self).ledger.retired_ids(),
            final(self).ledger.primary() == old(self).ledger.primary(),
            old(self).ledger.wf() ==> final(self).ledger.wf(),
            unchanged_but_upgrades(*old(self), *final(self)),
            final(self).capacity == old(self).capacity,
            final(self).auto_interval_ms == old(self).auto_interval_ms,
            r ==> final(self).ledger.counts_seq() == upsert(
                old(self).ledger.counts_seq(),
                old(self).ledger.primary(),
                (old(self).ledger.spec_count(old(self).ledger.primary())
                    - old(self).prices.material_amount) as u32,
            ) && final(self).material_amount == add_sat(
                old(self).material_amount,
                MATERIAL_STEP,
            ),
            !r ==> final(self).ledger.counts_seq() == old(self).ledger.counts_seq() && final(self).material_amount == old(self).material_amount,
    {
        let pid = self.ledger.primary_name();
        let have = self.ledger.get(pid.as_str());
        let price = self.prices.material_amount;
        if have < price {
            return false;
        }
        self.ledger.set_count(pid.as_str(), have - price);
        self.material_amount = if self.material_amount <= u32::MAX - MATERIAL_STEP {
            self.material_amount + MATERIAL_STEP
        } else {
            u32::MAX
        };
        true
    }

    /// Shorten the auto-progression interval by [`INTERVAL_STEP_MS`],
    /// never below [`INTERVAL_FLOOR_MS`].
    pub fn reduce_auto_interval(&mut self) -> (r: bool)
        ensures
            r == (old(self).auto_interval_ms >= INTERVAL_FLOOR_MS),
            unchanged_but_upgrades(*old(self), *final(self)),
            final(self).ledger == old(self).ledger,
            final(self).capacity == old(self).capacity,
            final(self).material_amount == old(self).material_amount,
            r ==> final(self).auto_interval_ms == old(self).auto_interval_ms - INTERVAL_STEP_MS,
            !r ==> final(self).auto_interval_ms == old(self).auto_interval_ms,
    {
        if self.auto_interval_ms >= INTERVAL_FLOOR_MS {
            self.auto_interval_ms = self.auto_interval_ms - INTERVAL_STEP_MS;
            true
        } else {
            false
        }
    }

    /// Everything the engine persists, collected as plain values.
    pub fn to_save_data(&self) -> (s: SaveData)
        ensures
            s.counts.deep_view() == self.ledger.counts_seq(),
            s.flags.deep_view() == self.caps.flags@,
            s.tabs.deep_view() == self.caps.tabs@,
            s.recipes.deep_view() == self.caps.recipes@,
            s.unlocked_nodes.deep_view() == self.graph.unlocked_ids(),
            s.quest_positions@.len() == self.quests@.len(),
            forall|i: int|
                0 <= i < self.quests@.len() ==> (#[trigger] s.quest_positions@[i]).0@
                    == self.quests@[i].id@ && s.quest_positions@[i].1
                    == clamp_pos(self.quests@[i].line.position()),
            s.earn_amount == self.earn_amount,
            s.material_amount == self.material_amount,
    {
        let n = self.quests.len();
        let mut positions: Vec<(String, u32)> = Vec::new();
        let mut i: usize = 0;
        while i < n
            invariant
                i <= n,
                n == self.quests@.len(),
                positions@.len() == i,
                forall|j: int|
                    0 <= j < i ==> (#[trigger] positions@[j]).0@ == self.quests@[j].id@
                        && positions@[j].1 == clamp_pos(self.quests@[j].line.position()),
            decreases n - i,
        {
            let p = self.quests[i].line.current_position();
            let p32 = if p <= u32::MAX as usize {
                p as u32
            } else {
                u32::MAX
            };
            positions.push((self.quests[i].id.clone(), p32));
            i += 1;
        }
        SaveData {
            counts: self.ledger.entries(),
            flags: self.caps.flags.to_names(),
            tabs: self.caps.tabs.to_names(),
            recipes: self.caps.recipes.to_names(),
            unlocked_nodes: self.graph.unlocked_names(),
            quest_positions: positions,
            earn_amount: self.earn_amount,
            material_amount: self.material_amount,
        }
    }

    /// Restore a session from saved plain values over freshly loaded data.
    /// Unknown or missing pieces default instead of failing: repeated ids
    /// collapse, an unknown quest line in the save is ignored, a quest
    /// position past the end reads as complete, an empty tab set falls
    /// back to the first declared category, and a vanished current tab is
    /// replaced by the first unlocked one.
    pub fn from_save(
        ledger: ResourceLedger,
        catalog: RecipeCatalog,
        graph: UnlockGraph,
        quests: Vec<QuestEntry>,
        initial_tab: String,
        auto_flag: String,
        save: &SaveData,
    ) -> (c: ProgressionController)
        ensures
            c.ledger.counts_seq() == loaded_counts(ledger.counts_seq(), save.counts.deep_view()),
            c.ledger.retired_ids() == ledger.retired_ids(),
            c.ledger.primary() == ledger.primary(),
            ledger.wf() ==> c.ledger.wf(),
            c.catalog == catalog,
            c.graph.nodes_seq() == graph.nodes_seq(),
            c.graph.unlocked_ids() == dedup(save.unlocked_nodes.deep_view()),
            graph.wf() ==> c.graph.wf(),
            c.caps.flags@ == dedup(save.flags.deep_view()),
            c.caps.recipes@ == dedup(save.recipes.deep_view()),
            c.caps.wf(),
            ({
                let t0 = dedup(save.tabs.deep_view());
                let tseq = if t0.len() > 0 {
                    t0
                } else {
                    match find_node_zero(graph.nodes_seq()) {
                        Some(cat) => seq![cat],
                        None => t0,
                    }
                };
                &&& c.caps.tabs@ == tseq
                &&& c.current_tab@ == if tseq.contains(initial_tab@) {
                    initial_tab@
                } else if tseq.len() > 0 {
                    tseq[0]
                } else {
                    initial_tab@
                }
            }),
            c.quests@.len() == quests@.len(),
            forall|i: int|
                0 <= i < quests@.len() ==> (#[trigger] c.quests@[i]).id == quests@[i].id && match
                    lookup_pos(save.quest_positions.deep_view(), quests@[i].id@) {
                    Some(p) => c.quests@[i].line.stages_seq() == quests@[i].line.stages_seq()
                        && c.quests@[i].line.wf() && c.quests@[i].line.position() == if p as int
                        <= quests@[i].line.stages_seq().len() {
                        p as int
                    } else {
                        quests@[i].line.stages_seq().len() as int
                    },
                    None => c.quests@[i].line == quests@[i].line,
                },
            c.earn_amount == save.earn_amount,
            c.material_amount == save.material_amount,
            c.capacity == 50 && c.drop_chance == 50,
            c.auto_interval_ms == 30000 && c.auto_timer_ms == 0,
            c.auto_flag == auto_flag,
            c.prices == (UpgradePrices { capacity: 50, material_amount: 200 }),
    {
        // Resource counts.
        let mut lgr = ledger;
        let ghost lgr0 = lgr;
        let ghost cv = save.counts.deep_view();
        proof {
            assert(cv.skip(0) =~= cv);
        }
        let n = save.counts.len();
        let mut i: usize = 0;
        while i < n
            invariant
                i <= n,
                n == save.counts@.len(),
                cv == save.counts.deep_view(),
                loaded_counts(lgr.counts_seq(), cv.skip(i as int)) == loaded_counts(
                    lgr0.counts_seq(),
                    cv,
                ),
                lgr.retired_ids() == lgr0.retired_ids(),
                lgr.primary() == lgr0.primary(),
                lgr0.wf() ==> lgr.wf(),
            decreases n - i,
        {
            proof {
                assert(cv.skip(i as int)[0] == cv[i as int]);
                assert(cv.skip(i as int).drop_first() =~= cv.skip(i as int + 1));
                assert(cv[i as int] == (save.counts@[i as int].0@, save.counts@[i as int].1));
            }
            let value = save.counts[i].1;
            lgr.set_count(save.counts[i].0.as_str(), value);
            i += 1;
        }
        proof {
            assert(cv.skip(n as int) =~= Seq::<(Seq<char>, u32)>::empty());
        }
        // Quest positions.
        let mut qs = quests;
        let ghost qv0 = qs@;
        let qn = qs.len();
        let mut qi: usize = 0;
        while qi < qn
            invariant
                qi <= qn,
                qn == qs@.len(),
                qv0.len() == qn,
                forall|k: int| qi <= k < qn ==> qs@[k] == qv0[k],
                forall|k: int|
                    0 <= k < qi ==> (#[trigger] qs@[k]).id == qv0[k].id && match lookup_pos(
                        save.quest_positions.deep_view(),
                        qv0[k].id@,
                    ) {
                        Some(p) => qs@[k].line.stages_seq() == qv0[k].line.stages_seq()
                            && qs@[k].line.wf() && qs@[k].line.position() == if p as int
                            <= qv0[k].line.stages_seq().len() {
                            p as int
                        } else {
                            qv0[k].line.stages_seq().len() as int
                        },
                        None => qs@[k].line == qv0[k].line,
                    },
            decreases qn - qi,
        {
            match find_position(&save.quest_positions, qs[qi].id.as_str()) {
                Some(p) => {
                    let p_usize = p as usize;
                    qs[qi].line.load_position(p_usize);
                },
                None => {},
            }
            qi += 1;
        }
        // Unlocked sets and tab normalization.
        let flags = NameSet::from_names(&save.flags);
        let recipes = NameSet::from_names(&save.recipes);
        let mut tabs = NameSet::from_names(&save.tabs);
        let mut grf = graph;
        grf.load_unlocked(&save.unlocked_nodes);
        let mut current_tab = initial_tab;
        if tabs.len() == 0 {
            match grf.first_category() {
                Some(cat) => {
                    tabs.insert(cat.as_str());
                    proof {
                        assert(tabs@ =~= seq![cat@]);
                    }
                    current_tab = cat;
                },
                None => {},
            }
        } else {
            if !tabs.contains(current_tab.as_str()) {
                match tabs.first() {
                    Some(t) => {
                        let t2 = t.clone();
                        current_tab = t2;
                    },
                    None => {},
                }
            }
        }
        ProgressionController {
            ledger: lgr,
            catalog,
            graph: grf,
            caps: Capabilities { flags, tabs, recipes },
            quests: qs,
            capacity: 50,
            earn_amount: save.earn_amount,
            material_amount: save.material_amount,
            drop_chance: 50,
            auto_interval_ms: 30000,
            auto_timer_ms: 0,
            auto_flag,
            current_tab,
            prices: UpgradePrices { capacity: 50, material_amount: 200 },
        }
    }

    /// Snap the shown research tab back onto declared data: when no
    /// declared node's category matches it, fall back to the first
    /// declared category and unlock that tab — so with at least one node
    /// declared, the shown tab always names some declared node's category
    /// afterwards. With nothing declared, nothing moves.
    pub fn normalize_current_tab(&mut self)
        ensures
            final(self).ledger == old(self).ledger,
            final(self).catalog == old(self).catalog,
            final(self).graph == old(self).graph,
            final(self).quests == old(self).quests,
            final(self).caps.flags@ == old(self).caps.flags@,
            final(self).caps.recipes@ == old(self).caps.recipes@,
            final(self).capacity == old(self).capacity,
            final(self).earn_amount == old(self).earn_amount,
            final(self).material_amount == old(self).material_amount,
            final(self).drop_chance == old(self).drop_chance,
            final(self).auto_interval_ms == old(self).auto_interval_ms,
            final(self).auto_timer_ms == old(self).auto_timer_ms,
            final(self).auto_flag == old(self).auto_flag,
            final(self).prices == old(self).prices,
            old(self).caps.wf() ==> final(self).caps.wf(),
            category_declared(old(self).graph.nodes_seq(), old(self).current_tab@) || old(
                self,
            ).graph.nodes_seq().len() == 0 ==> ({
                &&& final(self).current_tab == old(self).current_tab
                &&& final(self).caps.tabs@ == old(self).caps.tabs@
            }),
            !category_declared(old(self).graph.nodes_seq(), old(self).current_tab@) && old(
                self,
            ).graph.nodes_seq().len() > 0 ==> ({
                &&& final(self).current_tab@ == old(self).graph.nodes_seq()[0].category@
                &&& final(self).caps.tabs@ == add_name(
                    old(self).caps.tabs@,
                    old(self).graph.nodes_seq()[0].category@,
                )
            }),
            final(self).graph.nodes_seq().len() > 0 ==> category_declared(
                final(self).graph.nodes_seq(),
                final(self).current_tab@,
            ),
    {
        if self.graph.has_category(self.current_tab.as_str()) {
            return ;
        }
        match self.graph.first_category() {
            Some(cat) => {
                self.caps.tabs.insert(cat.as_str());
                self.current_tab = cat;
                proof {
                    assert(self.graph.nodes_seq()[0].category@ == self.current_tab@);
                    assert(category_declared(self.graph.nodes_seq(), self.current_tab@));
                }
            },
            None => {},
        }
    }
}

/// The category of the first node, as the tab fallback.
pub open spec fn find_node_zero(nodes: Seq<crate::graph::UnlockNode>) -> Option<Seq<char>> {
    if nodes.len() > 0 {
        Some(nodes[0].category@)
    } else {
        None
    }
}

/// A quest position clamped to what the save format holds.
pub open spec fn clamp_pos(p: int) -> u32 {
    if p <= u32::MAX {
        p as u32
    } else {
        u32::MAX
    }
}

/// The counts after storing every saved entry, first to last.
pub open spec fn loaded_counts(
    s: Seq<(Seq<char>, u32)>,
    pairs: Seq<(Seq<char>, u32)>,
) -> Seq<(Seq<char>, u32)>
    decreases pairs.len(),
{
    if pairs.len() == 0 {
        s
    } else {
        loaded_counts(upsert(s, pairs[0].0, pairs[0].1), pairs.drop_first())
    }
}

/// All controller state apart from the ledger is untouched.
pub open spec fn unchanged_but_ledger(a: ProgressionController, b: ProgressionController) -> bool {
    &&& b.catalog == a.catalog
    &&& b.graph == a.graph
    &&& b.caps == a.caps
    &&& b.quests == a.quests
    &&& b.capacity == a.capacity
    &&& b.earn_amount == a.earn_amount
    &&& b.material_amount == a.material_amount
    &&& b.drop_chance == a.drop_chance
    &&& b.auto_interval_ms == a.auto_interval_ms
    &&& b.auto_timer_ms == a.auto_timer_ms
    &&& b.auto_flag == a.auto_flag
    &&& b.current_tab == a.current_tab
    &&& b.prices == a.prices
}

/// All controller state apart from ledger, graph and capabilities is
/// untouched.
pub open spec fn unchanged_but_progress(a: ProgressionController, b: ProgressionController) -> bool {
    &&& b.catalog == a.catalog
    &&& b.quests == a.quests
    &&& b.capacity == a.capacity
    &&& b.earn_amount == a.earn_amount
    &&& b.material_amount == a.material_amount
    &&& b.drop_chance == a.drop_chance
    &&& b.auto_interval_ms == a.auto_interval_ms
    &&& b.auto_timer_ms == a.auto_timer_ms
    &&& b.auto_flag == a.auto_flag
    &&& b.current_tab == a.current_tab
    &&& b.prices == a.prices
}

/// All controller state apart from ledger, capabilities and quests is
/// untouched.
pub open spec fn unchanged_but_quests(a: ProgressionController, b: ProgressionController) -> bool {
    &&& b.catalog == a.catalog
    &&& b.graph == a.graph
    &&& b.capacity == a.capacity
    &&& b.earn_amount == a.earn_amount
    &&& b.material_amount == a.material_amount
    &&& b.drop_chance == a.drop_chance
    &&& b.auto_interval_ms == a.auto_interval_ms
    &&& b.auto_timer_ms == a.auto_timer_ms
    &&& b.auto_flag == a.auto_flag
    &&& b.current_tab == a.current_tab
    &&& b.prices == a.prices
}

/// All controller state apart from the ledger and the timer is untouched.
pub open spec fn unchanged_but_timer(a: ProgressionController, b: ProgressionController) -> bool {
    &&& b.catalog == a.catalog
    &&& b.graph == a.graph
    &&& b.caps == a.caps
    &&& b.quests == a.quests
    &&& b.capacity == a.capacity
    &&& b.earn_amount == a.earn_amount
    &&& b.material_amount == a.material_amount
    &&& b.drop_chance == a.drop_chance
    &&& b.auto_interval_ms == a.auto_interval_ms
    &&& b.auto_flag == a.auto_flag
    &&& b.current_tab == a.current_tab
    &&& b.prices == a.prices
}

/// All controller state apart from the ledger and the upgradable rates is
/// untouched.
pub open spec fn unchanged_but_upgrades(a: ProgressionController, b: ProgressionController) -> bool {
    &&& b.catalog == a.catalog
    &&& b.graph == a.graph
    &&& b.caps == a.caps
    &&& b.quests == a.quests
    &&& b.earn_amount == a.earn_amount
    &&& b.drop_chance == a.drop_chance
    &&& b.auto_timer_ms == a.auto_timer_ms
    &&& b.auto_flag == a.auto_flag
    &&& b.current_tab == a.current_tab
    &&& b.prices == a.prices
}

/// Relies on `rand::Rng::gen_range` on the thread-local generator: a
/// uniform draw below the bound; the range must not be empty.
#[verifier::external_body]
fn draw_index(n: usize) -> (r: usize)
    requires
        n > 0,
    ensures
        r < n,
{
    rand::thread_rng().gen_range(0..n)
}

/// The position of the first quest entry of that id, if any.
fn find_quest_idx(qs: &Vec<QuestEntry>, id: &str) -> (r: Option<usize>)
    ensures
        match r {
            Some(i) => i < qs@.len() && qs@[i as int].id@ == id@ && find_quest(qs@, id@) == Some(
                qs@[i as int],
            ) && forall|j: int| 0 <= j < i ==> qs@[j].id@ != id@,
            None => find_quest(qs@, id@) is None && forall|j: int|
                0 <= j < qs@.len() ==> qs@[j].id@ != id@,
        },
{
    let ghost s = qs@;
    proof {
        assert(s.skip(0) =~= s);
    }
    let n = qs.len();
    let mut i: usize = 0;
    while i < n
        invariant
            i <= n,
            n == qs@.len(),
            s == qs@,
            find_quest(s, id@) == find_quest(s.skip(i as int), id@),
            forall|j: int| 0 <= j < i ==> s[j].id@ != id@,
        decreases n - i,
    {
        let hit = str_eq(qs[i].id.as_str(), id);
        proof {
            assert(s.skip(i as int)[0] == s[i as int]);
            assert(s.skip(i as int).drop_first() =~= s.skip(i as int + 1));
        }
        if hit {
            return Some(i);
        }
        i += 1;
    }
    proof {
        assert(s.skip(n as int) =~= Seq::<QuestEntry>::empty());
    }
    None
}

/// The saved position stored for `id`, if any.
fn find_position(positions: &Vec<(String, u32)>, id: &str) -> (r: Option<u32>)
    ensures
        r == lookup_pos(positions.deep_view(), id@),
{
    let ghost s = positions.deep_view();
    proof {
        assert(s.skip(0) =~= s);
    }
    let n = positions.len();
    let mut i: usize = 0;
    while i < n
        invariant
            i <= n,
            n == positions@.len(),
            s == positions.deep_view(),
            lookup(s, id@) == lookup(s.skip(i as int), id@),
        decreases n - i,
    {
        let hit = str_eq(positions[i].0.as_str(), id);
        proof {
            assert(s.skip(i as int)[0] == s[i as int]);
            assert(s.skip(i as int).drop_first() =~= s.skip(i as int + 1));
            assert(s[i as int] == (positions@[i as int].0@, positions@[i as int].1));
        }
        if hit {
            return Some(positions[i].1);
        }
        i += 1;
    }
    proof {
        assert(s.skip(n as int) =~= Seq::<(Seq<char>, u32)>::empty());
    }
    None
}

} // verus!
