//! Workspace shell model: workspace kinds, pages, the composed container graph
//! (Bindings, tiers, valence, components), the page cache and its templates, layout
//! overrides and their saved form, saving and restoring workspaces, the shell's
//! selection, focus and routing rules, and the decisions of the analysis workspace
//! and of the window's pop-ups.

pub mod kind;
pub mod text;
pub mod graph;
pub mod order;
pub mod containers;
pub mod tiers;
pub mod valence;
pub mod pagetree;
pub mod components;
pub mod page;
pub mod signal;
pub mod workspace;
pub mod overrides;
pub mod persist;
pub mod shell;
pub mod routing;
pub mod registry;
pub mod pageorder;
pub mod results;
pub mod podcomponents;
pub mod templates;
pub mod split;
pub mod startup;
pub mod handlers;
pub mod restore;
pub mod analysis;
pub mod popups;
