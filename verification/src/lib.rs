//! Verified-streaming Merkle trees over BLAKE3 chaining values.
//!
//! A caller stages chunk bytes or chaining values in an input region and reads
//! the resulting chaining values from an output region. The hash primitives are
//! supplied by the `blake3` crate; everything built on top of them (record
//! layout, batch dispatch, level-by-level tree reduction and the rule that
//! places the root flag) is proved against the contracts stated here.

pub mod batch;
pub mod info;
pub mod primitive;
pub mod region;
pub mod tree;

pub use batch::{batch_chunk_cvs, batch_parent_cvs, chunk_cv, parent_cv};
pub use info::get_simd_info;
pub use primitive::{CHUNK_LEN, OUT_LEN};
pub use region::{get_input_size, get_output_size, read_cv, write_cv, INPUT_SIZE, OUTPUT_SIZE, PAIR_LEN};
pub use tree::{build_tree_single_pass, is_root_level, reduce_level, reduce_to_root};
