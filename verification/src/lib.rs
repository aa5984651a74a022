//! Interpreter for branching-narrative stories: a declarative document set
//! describes pages, links between them, variables and collectible items.
//! The loader turns raw per-page documents into a cross-referenced,
//! validated story graph, and the play engine walks that graph, resolving
//! player choices into state transitions with precise override and
//! stacking semantics.
//!
//! The data model lives in [`variable`], [`condition`], [`story`] and
//! [`item`]; the stores in [`varstore`] and [`inventory`], backed by the
//! map reasoning of [`kvmap`]. The loader is [`loader`] with its declared
//! input in [`settings`], validity in [`validate`], and errors in
//! [`errors`]. The engine is [`game`], proved against the transition
//! functions of [`semantics`]; [`laws`] states the engine's general laws.

pub mod condition;
pub mod errors;
pub mod game;
pub mod inventory;
pub mod item;
pub mod kvmap;
pub mod laws;
pub mod loader;
pub mod semantics;
pub mod settings;
pub mod story;
pub mod textparse;
pub mod utils;
pub mod validate;
pub mod variable;
pub mod varstore;
