//! A thin, verified encoding and update-semantics layer for task progress
//! reporting over an expiring key-value store.
//!
//! The crate validates and encodes three-part identifiers (namespace token,
//! task key, field name) into flat store keys, parses the textual update
//! grammar into tri-state field updates, compiles updates into store
//! operations, assembles state records from raw store values, and
//! deduplicates scanned keys into task listings. All store I/O lives with
//! the caller; this crate only computes.

mod codec;
mod errors;
mod listing;
mod record;
mod text;
mod update;

pub use codec::{check_string, decode_spec, encoded_key, lemma_encode_decode, pattern_chars,
    prefix_chars, Key};
pub use errors::Error;
pub use text::{first_occ, valid_char, valid_segment, valid_task_chars, no_colon};
pub use text::{all_digits, dec_digits, dec_val, digit_char, digit_val, format_i64, i64_dec_chars,
    is_digit, is_null_literal, join_colon, lemma_dec_digits, lemma_format_parse, parse_i64_spec,
    split_colon};
pub use update::{current_field, current_spec, i64_or_null_spec, is_del, is_set_number,
    is_set_text, max_field, max_spec, op_for_number, op_for_text, parse_i64_or_null,
    parse_update_spec, state_field, tri_ops, tri_view, StoreOp, Tristate, Update,
    EXPIRE_SECONDS};
pub use listing::{collect_tasks, decoded_in, decodes_to, ident_listed, same_ident};
pub use record::{lemma_read_all_absent, num_read_spec, read_state, read_state_spec, Value};
