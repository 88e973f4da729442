//! Progression and economy engine for an incremental game.
//!
//! The engine tracks a player's resources in a ledger, gates content behind
//! a prerequisite-and-cost unlock graph, crafts items from a static recipe
//! catalog, and advances strictly sequential quest lines. A thin controller
//! coordinates the parts and is the only surface a host UI needs to call.

pub mod strutil;

pub mod imap;

pub mod ledger;

pub mod names;

pub mod catalog;

pub mod graph;

pub mod quest;

pub mod controller;
