//! A transient "falling trail" overlay for a character grid.
//!
//! The overlay paints short-lived synthetic characters into a grid that some
//! other party owns and keeps writing to. Everything the overlay writes is
//! reconciled away as soon as the owner changes the grid for a real reason.

pub mod animation;
pub mod cell;
pub mod generator;
pub mod grid;
pub mod overlay;
pub mod random;
pub mod snapshot;
pub mod trail;

pub use animation::{
    cutoffs, generate, generate_with, plan_suits_grid, reconcile, step, tick, tick_with, undo,
    MatrixUndo, Reconciled, COOLDOWN,
};
pub use cell::{Cell, Color, Rgb, BOLD};
pub use generator::{append_burst, build_column, build_trails, draw_plan};
pub use grid::Grid;
pub use overlay::{has_drifted, render, restore, snapshot_fits_grid, trails_fit_grid};
pub use random::{Burst, Glyph};
pub use snapshot::{calc_lowest_char_changed_per_col, first_col, screen_shot};
pub use trail::{step_column, TrailEntry};
