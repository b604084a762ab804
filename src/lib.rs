//! Domain-name normalization after UTS #46: labels are split on the
//! recognized separators, each label is mapped, validated and encoded by the
//! `idna` crate, and the results are checked against the DNS length limits and
//! joined again, with every failure reported by label.

pub mod engine;
pub mod labels;
pub mod middleware;

pub use engine::{
    error_kinds_of, finish_ascii_label, finish_unicode_label, mentions_word, to_ascii,
    to_unicode, ConversionErrors, ErrorKind, LabelError, ProcessingConfig,
};
pub use labels::{label_bounds, octets_exceed};
pub use middleware::{InputToAscii, InputToUnicode, QueryMiddleware, QueryMiddlewareError};
