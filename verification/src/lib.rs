//! Verified source-to-source transformation cores: a repetition expander
//! over a token tree, and a bit-packed field accessor generator.
//!
//! The repetition side ([`repetition`], over [`token`]) parses
//! `name in start..[=]end { body }` and replays the body — or only a
//! marked repeat block inside it — once per index, substituting the bound
//! name and fusing `ident # name` into indexed identifiers.
//!
//! The bitfield side turns a declared field list into an exact binary
//! layout ([`layout`], resolved against the specifier bindings of
//! [`specifier`]) and reads and writes those fields through a verified
//! bit-range codec ([`codec`], modelled in [`bits`]): setting a field and
//! reading it back returns the value unchanged, and never perturbs any
//! other field.

pub mod bitfield;
pub mod bits;
pub mod codec;
pub mod digits;
pub mod error;
pub mod layout;
pub mod repetition;
pub mod specifier;
pub mod token;
