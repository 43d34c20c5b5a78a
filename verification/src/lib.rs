//! A discrete-time ecosystem simulation on a bounded 2D grid.
//!
//! Environmental conditions (light, moisture) are held per grid cell and
//! mutated by uniform [`Effect`] operators; plants consume resources, age,
//! grow, reproduce and die; rocks sit still; a [`GridMap`] projects the
//! full-resolution grid down to a small glyph display.

mod board;
mod evolve;
mod map;
mod plant;
mod rng;
mod rock;

pub use board::Board;
pub use board::BoardSection;
pub use board::Conditions;
pub use board::Effect;
pub use board::Location;
pub use board::clip_hi;
pub use board::clip_lo;
pub use board::lemma_append_accumulates;
pub use board::lemma_apply_overwrites;
pub use board::lemma_neighbor_count;
pub use board::lemma_range_count_positive;
pub use board::lemma_within_range_one_is_nearby;
pub use board::sat_add_nonneg;
pub use evolve::Evolve;
pub use map::GLYPH_EMPTY;
pub use map::GLYPH_ROCK;
pub use map::GridMap;
pub use map::chunk_all_empty;
pub use map::chunk_has_rock;
pub use map::first_mark;
pub use map::flip_rows_spec;
pub use map::grid_view;
pub use map::is_grid;
pub use map::lemma_render_all_empty;
pub use map::lemma_render_scale_one;
pub use map::reduce_chunk;
pub use map::reduce_row_spec;
pub use map::reduce_rows_spec;
pub use map::render_spec;
pub use map::rotate_ccw_spec;
pub use map::rotate_cw_spec;
pub use plant::CHANCE_SCALE;
pub use plant::Plant;
pub use plant::PlantKind;
pub use plant::Requirements;
pub use plant::death_message;
pub use plant::dec_digit;
pub use plant::dec_digits;
pub use plant::kind_label;
pub use plant::location_text;
pub use plant::rev_chars;
pub use plant::summary_text;
pub use plant::lemma_burn_damage_bound;
pub use plant::lemma_death_by_old_age;
pub use plant::lemma_immature_never_reproduces;
pub use rock::Rock;
