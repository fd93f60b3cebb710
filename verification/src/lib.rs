//! Grid-cell pointer navigation core: code-space generation, snapshot data,
//! incremental keystroke matching, and pixel-coordinate resolution.

pub mod cli;
pub mod conf;

mod codes;
mod engine;
mod errors;
mod resolver;
mod snapshot;
mod strutil;

pub use codes::SelectedKeys;
pub use engine::SelectionState;
pub use engine::lemma_abort_on_no_match;
pub use engine::lemma_advance_pure;
pub use engine::lemma_unique_resolution;
pub use engine::spec_run;
pub use strutil::is_space;
pub use strutil::spec_is_prefix;
pub use strutil::split_whitespace_vec;
pub use strutil::str_starts_with;
pub use codes::all_codes;
pub use codes::cross_codes;
pub use codes::generate_token_list;
pub use codes::lemma_code_space_size;
pub use codes::self_codes;
pub use engine::CODE_LENGTH;
pub use engine::SelectionStatus;
pub use engine::advance;
pub use engine::candidate_indices;
pub use engine::fold_char;
pub use engine::fold_key_char;
pub use engine::lemma_candidate_indices_complete;
pub use engine::spec_advance;
pub use errors::CliError;
pub use errors::ConfigurationError;
pub use resolver::CellBounds;
pub use resolver::cell_bounds_for_index;
pub use resolver::spec_cell_bounds;
pub use resolver::spec_cell_span;
pub use resolver::CoordinateUnavailable;
pub use resolver::ResolvedTarget;
pub use resolver::corrected_x2;
pub use resolver::corrected_y2;
pub use resolver::lemma_resolve_margin_shift;
pub use resolver::lemma_resolve_pure;
pub use resolver::resolve;
pub use resolver::round_half;
pub use resolver::spec_resolve_xy;
pub use snapshot::SharedData;
pub use snapshot::codes_unique;
pub use snapshot::spec_codes_unique;
pub use strutil::spec_split_ws;
