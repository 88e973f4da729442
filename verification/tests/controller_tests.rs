use clicker_engine::catalog::{CraftError, RecipeCatalog};
use clicker_engine::controller::{ProgressionController, QuestEntry, QuestError};
use clicker_engine::graph::{RewardEffect, UnlockError, UnlockGraph, UnlockNode, UnlockOutcome};
use clicker_engine::ledger::{CostEntry, ResourceLedger};
use clicker_engine::names::NameSet;
use clicker_engine::quest::{QuestLine, QuestReward, QuestStage};

fn fresh_ledger() -> ResourceLedger {
    ResourceLedger::new(
        "primary".to_string(),
        vec!["Soul".to_string(), "Souls".to_string()],
    )
}

fn cost(entries: &[(&str, u32)]) -> Vec<CostEntry> {
    entries
        .iter()
        .map(|(id, amount)| CostEntry { id: id.to_string(), amount: *amount })
        .collect()
}

fn node(id: &str, prereqs: &[&str], c: &[(&str, u32)], rewards: Vec<RewardEffect>) -> UnlockNode {
    UnlockNode {
        id: id.to_string(),
        name: id.to_string(),
        description: String::new(),
        category: "Crystallography".to_string(),
        cost: cost(c),
        prerequisites: prereqs.iter().map(|p| p.to_string()).collect(),
        rewards,
    }
}

fn fresh_controller() -> ProgressionController {
    let mut catalog = RecipeCatalog::new();
    assert!(catalog.add_category("secondary".to_string(), Some("secondary_crystals".to_string())));
    assert!(catalog.add_item("secondary", "gelum".to_string(), cost(&[("aer", 1), ("aqua", 1)])));
    let mut graph = UnlockGraph::new();
    assert!(graph.add_node(node(
        "crystal_mastery",
        &[],
        &[("primary", 50)],
        vec![RewardEffect::SetFlag("secondary_crystals".to_string())],
    )));
    let quests = vec![QuestEntry {
        id: "gathering".to_string(),
        line: QuestLine::new(vec![QuestStage {
            requirement: CostEntry { id: "ignis".to_string(), amount: 2 },
            rewards: vec![QuestReward::Grant { id: "primary".to_string(), amount: 5 }],
        }]),
    }];
    ProgressionController::new(
        fresh_ledger(),
        catalog,
        graph,
        quests,
        "Crystallography".to_string(),
        "auto_clicking".to_string(),
    )
}

#[test]
fn earning_clamps_to_capacity() {
    // Ledger { primary: 0 }, capacity 50; earning 10 five times reaches
    // exactly 50, and a sixth earn does not pass it.
    let mut c = fresh_controller();
    assert_eq!(c.capacity, 50);
    for _ in 0..5 {
        c.earn_primary_currency(10);
    }
    assert_eq!(c.ledger.get("primary"), 50);
    c.earn_primary_currency(10);
    assert_eq!(c.ledger.get("primary"), 50);
}

#[test]
fn controller_unlock_spends_and_rewards() {
    let mut c = fresh_controller();
    c.earn_primary_currency(30);
    assert_eq!(
        c.unlock("crystal_mastery"),
        Err(UnlockError::InsufficientResources(vec![CostEntry {
            id: "primary".to_string(),
            amount: 20,
        }]))
    );
    assert_eq!(c.ledger.get("primary"), 30);
    c.earn_primary_currency(20);
    assert_eq!(c.unlock("crystal_mastery"), Ok(UnlockOutcome::Unlocked));
    assert_eq!(c.ledger.get("primary"), 0);
    assert!(c.caps.flags.contains("secondary_crystals"));
    assert_eq!(c.unlock("crystal_mastery"), Err(UnlockError::AlreadyUnlocked));
}

#[test]
fn controller_craft_delegates_all_or_nothing() {
    let mut c = fresh_controller();
    c.ledger.add("aer", 1);
    assert_eq!(c.craft("secondary", "gelum"), Err(CraftError::InsufficientResources));
    assert_eq!(c.ledger.get("aer"), 1);
    c.ledger.add("aqua", 1);
    assert_eq!(c.craft("secondary", "gelum"), Ok(()));
    assert_eq!(c.ledger.get("gelum"), 1);
}

#[test]
fn advance_quest_by_line_id() {
    let mut c = fresh_controller();
    assert_eq!(c.advance_quest("unknown"), Err(QuestError::NotFound));
    assert_eq!(c.advance_quest("gathering"), Ok(false));
    c.ledger.add("ignis", 2);
    assert_eq!(c.advance_quest("gathering"), Ok(true));
    assert_eq!(c.ledger.get("ignis"), 0);
    assert_eq!(c.ledger.get("primary"), 5);
    // The line is now terminal.
    c.ledger.add("ignis", 2);
    assert_eq!(c.advance_quest("gathering"), Ok(false));
    assert_eq!(c.ledger.get("ignis"), 2);
}

#[test]
fn material_drop_obeys_gate_and_candidates() {
    let mut c = fresh_controller();
    let candidates = vec!["aer".to_string(), "aqua".to_string()];
    // A zero chance never drops.
    assert_eq!(c.roll_material_drop(0, &candidates), None);
    assert_eq!(c.ledger.entries(), vec![]);
    // No candidates never drops.
    assert_eq!(c.roll_material_drop(100, &vec![]), None);
    // A certain chance always drops one of the candidates.
    let dropped = c.roll_material_drop(100, &candidates).expect("a certain drop");
    assert!(candidates.contains(&dropped));
    assert_eq!(c.ledger.get(dropped.as_str()), 1);
}

#[test]
fn certain_single_candidate_drop_is_deterministic() {
    let mut c = fresh_controller();
    c.material_amount = 3;
    let candidates = vec!["terra".to_string()];
    for _ in 0..4 {
        assert_eq!(c.roll_material_drop(100, &candidates), Some("terra".to_string()));
    }
    assert_eq!(c.ledger.get("terra"), 12);
}

#[test]
fn tick_needs_the_auto_flag() {
    let mut c = fresh_controller();
    c.tick(60000);
    assert_eq!(c.auto_timer_ms, 0);
    assert_eq!(c.ledger.get("primary"), 0);
}

#[test]
fn tick_carries_overshoot_forward() {
    let mut c = fresh_controller();
    c.caps.flags.insert("auto_clicking");
    assert_eq!(c.auto_interval_ms, 30000);
    c.tick(20000);
    assert_eq!(c.auto_timer_ms, 20000);
    assert_eq!(c.ledger.get("primary"), 0);
    // 20000 + 25000 passes 30000 once; 15000 carries forward, one earn of
    // 50 fills the capacity.
    c.tick(25000);
    assert_eq!(c.auto_timer_ms, 15000);
    assert_eq!(c.ledger.get("primary"), 50);
}

#[test]
fn upgrades_check_and_debit_the_same_price() {
    let mut c = fresh_controller();
    assert_eq!(c.prices.capacity, 50);
    assert!(!c.buy_capacity_upgrade());
    assert_eq!(c.capacity, 50);
    c.earn_primary_currency(50);
    assert!(c.buy_capacity_upgrade());
    assert_eq!(c.ledger.get("primary"), 0);
    assert_eq!(c.capacity, 100);
}

#[test]
fn material_upgrade_needs_its_price() {
    let mut c = fresh_controller();
    c.capacity = 500;
    c.earn_primary_currency(199);
    assert!(!c.buy_material_upgrade());
    assert_eq!(c.material_amount, 1);
    c.earn_primary_currency(1);
    assert!(c.buy_material_upgrade());
    assert_eq!(c.material_amount, 2);
    assert_eq!(c.ledger.get("primary"), 0);
}

#[test]
fn interval_upgrade_respects_the_floor() {
    let mut c = fresh_controller();
    c.auto_interval_ms = 1400;
    assert!(c.reduce_auto_interval());
    assert_eq!(c.auto_interval_ms, 900);
    assert!(!c.reduce_auto_interval());
    assert_eq!(c.auto_interval_ms, 900);
}

#[test]
fn save_state_round_trips() {
    let mut c = fresh_controller();
    c.earn_primary_currency(50);
    assert_eq!(c.unlock("crystal_mastery"), Ok(UnlockOutcome::Unlocked));
    c.ledger.add("aer", 1);
    c.ledger.add("aqua", 1);
    assert_eq!(c.craft("secondary", "gelum"), Ok(()));
    c.ledger.add("ignis", 2);
    assert_eq!(c.advance_quest("gathering"), Ok(true));
    let save = c.to_save_data();

    let mut catalog = RecipeCatalog::new();
    assert!(catalog.add_category("secondary".to_string(), Some("secondary_crystals".to_string())));
    assert!(catalog.add_item("secondary", "gelum".to_string(), cost(&[("aer", 1), ("aqua", 1)])));
    let mut graph = UnlockGraph::new();
    assert!(graph.add_node(node(
        "crystal_mastery",
        &[],
        &[("primary", 50)],
        vec![RewardEffect::SetFlag("secondary_crystals".to_string())],
    )));
    let quests = vec![QuestEntry {
        id: "gathering".to_string(),
        line: QuestLine::new(vec![QuestStage {
            requirement: CostEntry { id: "ignis".to_string(), amount: 2 },
            rewards: vec![QuestReward::Grant { id: "primary".to_string(), amount: 5 }],
        }]),
    }];
    let restored = ProgressionController::from_save(
        fresh_ledger(),
        catalog,
        graph,
        quests,
        "Crystallography".to_string(),
        "auto_clicking".to_string(),
        &save,
    );
    assert_eq!(restored.ledger.entries(), c.ledger.entries());
    assert!(restored.caps.flags.contains("secondary_crystals"));
    assert!(restored.graph.is_unlocked("crystal_mastery"));
    assert_eq!(restored.quests[0].line.current_position(), 1);
    assert_eq!(restored.current_tab, "Crystallography".to_string());
    assert_eq!(restored.earn_amount, c.earn_amount);
    assert_eq!(restored.material_amount, c.material_amount);
    let again = restored.to_save_data();
    assert_eq!(again.counts, save.counts);
    assert_eq!(again.flags, save.flags);
    assert_eq!(again.tabs, save.tabs);
    assert_eq!(again.recipes, save.recipes);
    assert_eq!(again.unlocked_nodes, save.unlocked_nodes);
    assert_eq!(again.quest_positions, save.quest_positions);
}

#[test]
fn missing_save_pieces_default() {
    // An empty save: nothing unlocked, counts empty, and the tab set falls
    // back to the first declared category.
    let save = clicker_engine::controller::SaveData {
        counts: vec![],
        flags: vec![],
        tabs: vec![],
        recipes: vec![],
        unlocked_nodes: vec![],
        quest_positions: vec![],
        earn_amount: 50,
        material_amount: 1,
    };
    let mut graph = UnlockGraph::new();
    assert!(graph.add_node(node("crystal_mastery", &[], &[], vec![])));
    let restored = ProgressionController::from_save(
        fresh_ledger(),
        RecipeCatalog::new(),
        graph,
        vec![],
        "Vanished".to_string(),
        "auto_clicking".to_string(),
        &save,
    );
    assert_eq!(restored.ledger.entries(), vec![]);
    assert!(restored.caps.tabs.contains("Crystallography"));
    assert_eq!(restored.current_tab, "Crystallography".to_string());
}

#[test]
fn saved_duplicates_collapse() {
    let save = clicker_engine::controller::SaveData {
        counts: vec![("aer".to_string(), 1), ("aer".to_string(), 4)],
        flags: vec!["x".to_string(), "x".to_string(), "y".to_string()],
        tabs: vec!["T".to_string(), "T".to_string()],
        recipes: vec![],
        unlocked_nodes: vec!["A".to_string(), "A".to_string()],
        quest_positions: vec![],
        earn_amount: 50,
        material_amount: 1,
    };
    let restored = ProgressionController::from_save(
        fresh_ledger(),
        RecipeCatalog::new(),
        UnlockGraph::new(),
        vec![],
        "T".to_string(),
        "auto_clicking".to_string(),
        &save,
    );
    // The later saved count wins; repeated names collapse.
    assert_eq!(restored.ledger.get("aer"), 4);
    assert_eq!(restored.caps.flags.to_names(), vec!["x".to_string(), "y".to_string()]);
    assert_eq!(restored.caps.tabs.to_names(), vec!["T".to_string()]);
    assert_eq!(restored.graph.unlocked_names(), vec!["A".to_string()]);
}

#[test]
fn name_sets_deduplicate_and_keep_order() {
    let mut s = NameSet::new();
    s.insert("b");
    s.insert("a");
    s.insert("b");
    assert_eq!(s.len(), 2);
    assert!(s.contains("a"));
    assert!(s.contains("b"));
    assert!(!s.contains("c"));
    assert_eq!(s.to_names(), vec!["b".to_string(), "a".to_string()]);
    let from = NameSet::from_names(&vec!["q".to_string(), "p".to_string(), "q".to_string()]);
    assert_eq!(from.to_names(), vec!["q".to_string(), "p".to_string()]);
}

#[test]
fn drop_is_certain_at_full_chance() {
    // At one hundred percent or more, with candidates present, a drop is
    // owed: the draw cannot refuse it.
    let mut c = fresh_controller();
    let candidates = vec!["aer".to_string(), "aqua".to_string()];
    for _ in 0..8 {
        assert!(c.roll_material_drop(100, &candidates).is_some());
        assert!(c.roll_material_drop(150, &candidates).is_some());
    }
    assert_eq!(c.ledger.get("aer") + c.ledger.get("aqua"), 16);
}

#[test]
fn normalize_tab_snaps_to_declared_category() {
    // A save whose tab list holds only stale names: after normalization
    // the shown tab names a declared node's category, and that tab is
    // unlocked.
    let save = clicker_engine::controller::SaveData {
        counts: vec![],
        flags: vec![],
        tabs: vec!["Stale".to_string()],
        recipes: vec![],
        unlocked_nodes: vec![],
        quest_positions: vec![],
        earn_amount: 50,
        material_amount: 1,
    };
    let mut graph = UnlockGraph::new();
    assert!(graph.add_node(node("crystal_mastery", &[], &[], vec![])));
    let mut restored = ProgressionController::from_save(
        fresh_ledger(),
        RecipeCatalog::new(),
        graph,
        vec![],
        "Crystallography".to_string(),
        "auto_clicking".to_string(),
        &save,
    );
    assert_eq!(restored.current_tab, "Stale".to_string());
    restored.normalize_current_tab();
    assert_eq!(restored.current_tab, "Crystallography".to_string());
    assert!(restored.caps.tabs.contains("Crystallography"));
    assert!(restored.caps.tabs.contains("Stale"));
}

#[test]
fn normalize_tab_keeps_a_declared_tab() {
    // A tab that names a declared category is left alone, and an empty
    // graph moves nothing.
    let mut c = fresh_controller();
    let tabs_before = c.caps.tabs.to_names();
    c.normalize_current_tab();
    assert_eq!(c.current_tab, "Crystallography".to_string());
    assert_eq!(c.caps.tabs.to_names(), tabs_before);
    let mut empty = ProgressionController::new(
        fresh_ledger(),
        RecipeCatalog::new(),
        UnlockGraph::new(),
        vec![],
        "Anywhere".to_string(),
        "auto_clicking".to_string(),
    );
    empty.normalize_current_tab();
    assert_eq!(empty.current_tab, "Anywhere".to_string());
}

#[test]
fn ledger_keys_stay_unique() {
    // However a ledger is driven, each resource appears once in its
    // entries, so a save and reload reproduces every count.
    let mut c = fresh_controller();
    for _ in 0..3 {
        c.earn_primary_currency(30);
        c.ledger.add("aer", 1);
        c.ledger.set_count("aer", 2);
        c.ledger.increment_or_insert("aqua", 1);
    }
    assert_eq!(c.craft("secondary", "gelum"), Ok(()));
    let entries = c.ledger.entries();
    for (i, (id_a, _)) in entries.iter().enumerate() {
        for (id_b, _) in entries.iter().skip(i + 1) {
            assert_ne!(id_a, id_b);
        }
    }
}
