//! Lookup-table generation for mouse acceleration curves.
//!
//! The library decides how a table is laid out (dead zone, interpolated
//! region, plateau, chained segments), how parameter sets resolve their
//! values, and how a curve is handed to an external driver. It is generic
//! over the sample type: the numeric shape of the interpolated region is
//! supplied by the caller as a function of the sample index.

mod curve;
mod defaults;
mod error;
mod export;
mod persist;
mod segments;
mod settings;

pub use curve::{CurveShape, Region, TABLE_SIZE};
pub use curve::{generate_sensitivity_curve, calculate_curve, dead_len, interp_len, region_of, sample_ok, is_curve};
pub use curve::{lemma_dead_zone, lemma_degenerate_zeros, lemma_plateau, lemma_prefix_stable};
pub use segments::{SegmentSpec, generate_segment, in_plateau, chain_segments};
pub use segments::{take_len, left_before, seg_len, seg_pos, seg_skip, seg_seed, seg_sample_ok, chain_prefix_ok, lemma_segments_fill};
pub use settings::{CurveParams, resolve_curve_params, Settings, has_key, keys_unique, entries_map, resolve_value};
pub use error::{AccelError, joined};
pub use export::{EXPORT_FILE_NAME, WRITER_NAME, validate_install_path, require_writer, flat_lut, flatten_lut};
pub use persist::{SETTINGS_FILE_NAME, settle_load};
pub use defaults::{SettingConstraint, SettingGroup, DefaultSettings, group_entries};
