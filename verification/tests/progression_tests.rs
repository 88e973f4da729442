use clicker_engine::catalog::{CraftError, RecipeCatalog};
use clicker_engine::graph::{NodeState, RewardEffect, UnlockError, UnlockGraph, UnlockNode,
    UnlockOutcome, parse_reward};
use clicker_engine::ledger::{CostEntry, ResourceLedger};
use clicker_engine::names::Capabilities;
use clicker_engine::quest::{QuestLine, QuestReward, QuestStage};

fn fresh_ledger() -> ResourceLedger {
    ResourceLedger::new(
        "primary".to_string(),
        vec!["Soul".to_string(), "Souls".to_string()],
    )
}

fn cost(entries: &[(&str, u32)]) -> Vec<CostEntry> {
    entries
        .iter()
        .map(|(id, amount)| CostEntry { id: id.to_string(), amount: *amount })
        .collect()
}

fn node(id: &str, prereqs: &[&str], c: &[(&str, u32)], rewards: Vec<RewardEffect>) -> UnlockNode {
    UnlockNode {
        id: id.to_string(),
        name: id.to_string(),
        description: String::new(),
        category: "Crystallography".to_string(),
        cost: cost(c),
        prerequisites: prereqs.iter().map(|p| p.to_string()).collect(),
        rewards,
    }
}

#[test]
fn catalog_refuses_malformed_items() {
    let mut catalog = RecipeCatalog::new();
    assert!(catalog.add_category("secondary".to_string(), Some("secondary_crystals".to_string())));
    // Repeated category name.
    assert!(!catalog.add_category("secondary".to_string(), None));
    // Cost naming the same resource twice.
    assert!(!catalog.add_item("secondary", "gelum".to_string(), cost(&[("aer", 1), ("aer", 2)])));
    // Item requiring itself.
    assert!(!catalog.add_item("secondary", "gelum".to_string(), cost(&[("gelum", 1)])));
    // Unknown category.
    assert!(!catalog.add_item("tertiary", "gelum".to_string(), cost(&[("aer", 1)])));
    // A well-formed declaration goes through; a repeat of it is refused.
    assert!(catalog.add_item("secondary", "gelum".to_string(), cost(&[("aer", 1), ("aqua", 1)])));
    assert!(!catalog.add_item("secondary", "gelum".to_string(), cost(&[("ignis", 1)])));
    assert_eq!(catalog.items_in("secondary").len(), 1);
    assert_eq!(catalog.items_in("tertiary").len(), 0);
}

#[test]
fn craft_fails_all_or_nothing() {
    // Recipe gelum = { aer: 1, aqua: 1 }; ledger holds aer: 1, aqua: 0.
    let mut catalog = RecipeCatalog::new();
    assert!(catalog.add_category("secondary".to_string(), None));
    assert!(catalog.add_item("secondary", "gelum".to_string(), cost(&[("aer", 1), ("aqua", 1)])));
    let mut ledger = fresh_ledger();
    ledger.add("aer", 1);
    let r = catalog.craft(&mut ledger, "secondary", "gelum");
    assert_eq!(r, Err(CraftError::InsufficientResources));
    // No partial spend of aer.
    assert_eq!(ledger.get("aer"), 1);
    assert_eq!(ledger.get("aqua"), 0);
    assert_eq!(ledger.get("gelum"), 0);
}

#[test]
fn craft_pays_and_banks_the_item() {
    let mut catalog = RecipeCatalog::new();
    assert!(catalog.add_category("secondary".to_string(), None));
    assert!(catalog.add_item("secondary", "gelum".to_string(), cost(&[("aer", 1), ("aqua", 1)])));
    let mut ledger = fresh_ledger();
    ledger.add("aer", 2);
    ledger.add("aqua", 1);
    assert_eq!(catalog.craft(&mut ledger, "secondary", "gelum"), Ok(()));
    assert_eq!(ledger.get("aer"), 1);
    assert_eq!(ledger.get("aqua"), 0);
    assert_eq!(ledger.get("gelum"), 1);
    // Crafting again is refused for want of aqua, and changes nothing.
    assert_eq!(
        catalog.craft(&mut ledger, "secondary", "gelum"),
        Err(CraftError::InsufficientResources)
    );
    assert_eq!(ledger.get("gelum"), 1);
}

#[test]
fn craft_unknown_item_is_not_found() {
    let mut catalog = RecipeCatalog::new();
    assert!(catalog.add_category("secondary".to_string(), None));
    let mut ledger = fresh_ledger();
    assert_eq!(catalog.craft(&mut ledger, "secondary", "gelum"), Err(CraftError::ItemNotFound));
    assert_eq!(catalog.craft(&mut ledger, "tertiary", "gelum"), Err(CraftError::ItemNotFound));
}

#[test]
fn category_gating_follows_flags() {
    let mut catalog = RecipeCatalog::new();
    assert!(catalog.add_category("basic".to_string(), None));
    assert!(catalog.add_category("secondary".to_string(), Some("secondary_crystals".to_string())));
    let mut caps = Capabilities::new();
    assert!(catalog.category_unlocked(&caps, "basic"));
    assert!(!catalog.category_unlocked(&caps, "secondary"));
    assert!(!catalog.category_unlocked(&caps, "unknown"));
    caps.flags.insert("secondary_crystals");
    assert!(catalog.category_unlocked(&caps, "secondary"));
}

#[test]
fn unlock_without_funds_is_refused_unchanged() {
    // Node A: no prerequisites, cost { primary: 50 }; ledger holds 30.
    let mut graph = UnlockGraph::new();
    assert!(graph.add_node(node("A", &[], &[("primary", 50)], vec![])));
    let mut ledger = fresh_ledger();
    ledger.add("primary", 30);
    let mut caps = Capabilities::new();
    let r = graph.unlock(&mut ledger, &mut caps, "A");
    assert_eq!(
        r,
        Err(UnlockError::InsufficientResources(vec![CostEntry {
            id: "primary".to_string(),
            amount: 20,
        }]))
    );
    assert_eq!(ledger.get("primary"), 30);
    assert!(!graph.is_unlocked("A"));
}

#[test]
fn unlock_reports_every_missing_prerequisite() {
    // Node B requires A; A is not unlocked.
    let mut graph = UnlockGraph::new();
    assert!(graph.add_node(node("A", &[], &[("primary", 50)], vec![])));
    assert!(graph.add_node(node("B", &["A"], &[], vec![])));
    let mut ledger = fresh_ledger();
    let mut caps = Capabilities::new();
    let r = graph.unlock(&mut ledger, &mut caps, "B");
    assert_eq!(r, Err(UnlockError::PrerequisitesMissing(vec!["A".to_string()])));
    assert!(!graph.is_unlocked("B"));
}

#[test]
fn unlock_twice_reports_already_unlocked() {
    let mut graph = UnlockGraph::new();
    assert!(graph.add_node(node("A", &[], &[("primary", 10)], vec![])));
    let mut ledger = fresh_ledger();
    ledger.add("primary", 25);
    let mut caps = Capabilities::new();
    assert_eq!(graph.unlock(&mut ledger, &mut caps, "A"), Ok(UnlockOutcome::Unlocked));
    assert_eq!(ledger.get("primary"), 15);
    // Second call: always AlreadyUnlocked, and nothing moves.
    assert_eq!(graph.unlock(&mut ledger, &mut caps, "A"), Err(UnlockError::AlreadyUnlocked));
    assert_eq!(ledger.get("primary"), 15);
    assert_eq!(graph.unlocked_names(), vec!["A".to_string()]);
}

#[test]
fn unlock_unknown_node_is_not_found() {
    let mut graph = UnlockGraph::new();
    let mut ledger = fresh_ledger();
    let mut caps = Capabilities::new();
    assert_eq!(graph.unlock(&mut ledger, &mut caps, "ghost"), Err(UnlockError::NotFound));
}

#[test]
fn can_unlock_is_false_immediately_after_unlock() {
    let mut graph = UnlockGraph::new();
    assert!(graph.add_node(node("A", &[], &[], vec![])));
    assert!(graph.can_unlock("A"));
    let mut ledger = fresh_ledger();
    let mut caps = Capabilities::new();
    assert_eq!(graph.unlock(&mut ledger, &mut caps, "A"), Ok(UnlockOutcome::Unlocked));
    assert!(!graph.can_unlock("A"));
}

#[test]
fn unlock_applies_every_reward_effect() {
    let mut graph = UnlockGraph::new();
    assert!(graph.add_node(node(
        "A",
        &[],
        &[],
        vec![
            RewardEffect::SetFlag("secondary_crystals".to_string()),
            RewardEffect::UnlockTab("Alchemy".to_string()),
            RewardEffect::UnlockRecipe("gelum".to_string()),
        ],
    )));
    let mut ledger = fresh_ledger();
    let mut caps = Capabilities::new();
    assert_eq!(graph.unlock(&mut ledger, &mut caps, "A"), Ok(UnlockOutcome::Unlocked));
    assert!(caps.flags.contains("secondary_crystals"));
    assert!(caps.tabs.contains("Alchemy"));
    assert!(caps.recipes.contains("gelum"));
}

#[test]
fn unlocked_set_stays_closed_under_prerequisites() {
    let mut graph = UnlockGraph::new();
    assert!(graph.add_node(node("A", &[], &[], vec![])));
    assert!(graph.add_node(node("B", &["A"], &[], vec![])));
    let mut ledger = fresh_ledger();
    let mut caps = Capabilities::new();
    // B cannot enter the set before A.
    assert!(graph.unlock(&mut ledger, &mut caps, "B").is_err());
    assert_eq!(graph.unlock(&mut ledger, &mut caps, "A"), Ok(UnlockOutcome::Unlocked));
    assert_eq!(graph.unlock(&mut ledger, &mut caps, "B"), Ok(UnlockOutcome::Unlocked));
    assert_eq!(graph.unlocked_names(), vec!["A".to_string(), "B".to_string()]);
}

#[test]
fn node_states_follow_the_unlock_life_cycle() {
    let mut graph = UnlockGraph::new();
    assert!(graph.add_node(node("A", &[], &[], vec![])));
    assert!(graph.add_node(node("B", &["A"], &[], vec![])));
    assert_eq!(graph.node_state("A"), Some(NodeState::Unlockable));
    assert_eq!(graph.node_state("B"), Some(NodeState::Locked));
    assert_eq!(graph.node_state("ghost"), None);
    let mut ledger = fresh_ledger();
    let mut caps = Capabilities::new();
    assert_eq!(graph.unlock(&mut ledger, &mut caps, "A"), Ok(UnlockOutcome::Unlocked));
    assert_eq!(graph.node_state("A"), Some(NodeState::Unlocked));
    assert_eq!(graph.node_state("B"), Some(NodeState::Unlockable));
}

#[test]
fn graph_refuses_malformed_nodes() {
    let mut graph = UnlockGraph::new();
    assert!(graph.add_node(node("A", &[], &[], vec![])));
    // Repeated id.
    assert!(!graph.add_node(node("A", &[], &[], vec![])));
    // Cost naming a resource twice.
    assert!(!graph.add_node(node("C", &[], &[("aer", 1), ("aer", 2)], vec![])));
}

#[test]
fn reward_strings_decode_once() {
    assert!(matches!(
        parse_reward("recipe:gelum"),
        RewardEffect::UnlockRecipe(id) if id == "gelum"
    ));
    assert!(matches!(
        parse_reward("secondary_crystals"),
        RewardEffect::SetFlag(f) if f == "secondary_crystals"
    ));
    assert!(matches!(
        parse_reward("recipe:"),
        RewardEffect::UnlockRecipe(id) if id.is_empty()
    ));
    assert!(matches!(parse_reward("recipe"), RewardEffect::SetFlag(f) if f == "recipe"));
}

#[test]
fn quest_advances_only_when_turn_in_is_covered() {
    let stages = vec![
        QuestStage {
            requirement: CostEntry { id: "ignis".to_string(), amount: 3 },
            rewards: vec![
                QuestReward::Grant { id: "primary".to_string(), amount: 10 },
                QuestReward::SetFlag("forging_basics".to_string()),
            ],
        },
        QuestStage {
            requirement: CostEntry { id: "aqua".to_string(), amount: 2 },
            rewards: vec![],
        },
    ];
    let mut line = QuestLine::new(stages);
    let mut ledger = fresh_ledger();
    let mut caps = Capabilities::new();
    // Not enough ignis yet.
    assert!(!line.try_advance(&mut ledger, &mut caps));
    assert_eq!(line.current_position(), 0);
    ledger.add("ignis", 3);
    assert!(line.try_advance(&mut ledger, &mut caps));
    assert_eq!(line.current_position(), 1);
    assert_eq!(ledger.get("ignis"), 0);
    assert_eq!(ledger.get("primary"), 10);
    assert!(caps.flags.contains("forging_basics"));
}

#[test]
fn terminal_quest_refuses_and_mutates_nothing() {
    let stages = vec![QuestStage {
        requirement: CostEntry { id: "aqua".to_string(), amount: 1 },
        rewards: vec![QuestReward::Grant { id: "primary".to_string(), amount: 5 }],
    }];
    let mut line = QuestLine::new(stages);
    let mut ledger = fresh_ledger();
    ledger.add("aqua", 5);
    let mut caps = Capabilities::new();
    assert!(line.try_advance(&mut ledger, &mut caps));
    assert!(line.is_complete());
    let before_aqua = ledger.get("aqua");
    let before_primary = ledger.get("primary");
    // Terminal: always false, and the ledger is untouched.
    assert!(!line.try_advance(&mut ledger, &mut caps));
    assert!(!line.try_advance(&mut ledger, &mut caps));
    assert_eq!(ledger.get("aqua"), before_aqua);
    assert_eq!(ledger.get("primary"), before_primary);
    assert_eq!(line.current_position(), 1);
}

#[test]
fn quest_position_loads_clamped() {
    let stages = vec![
        QuestStage {
            requirement: CostEntry { id: "aqua".to_string(), amount: 1 },
            rewards: vec![],
        },
        QuestStage {
            requirement: CostEntry { id: "aqua".to_string(), amount: 1 },
            rewards: vec![],
        },
    ];
    let mut line = QuestLine::new(stages);
    line.load_position(1);
    assert_eq!(line.current_position(), 1);
    line.load_position(99);
    assert_eq!(line.current_position(), 2);
    assert!(line.is_complete());
}
