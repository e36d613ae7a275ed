use vstd::prelude::*;

pub mod text;
pub mod binary64;
pub mod sorting;
pub mod diff_model;
pub mod diff_panes;
pub mod diff_laws;
pub mod hunk_nav;
pub mod domain;
pub mod theme;
pub mod components;
pub mod branches;
pub mod branch_widget;
pub mod branches_tree;
pub mod branch_tree_view;
pub mod commit_window;
pub mod staging;
pub mod cherry_across;
pub mod bulk_monitor;
pub mod log_window;
pub mod blame_view;
pub mod dialogs;
pub mod interactive_rebase;
pub mod conflict_resolver;
pub mod bulk_preflight;
pub mod activity;
pub mod clock;

verus! {
} // verus!
