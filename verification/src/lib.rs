//! A verified bit-packed structure codec.
//!
//! Given an ordered list of logical fields, each with a declared bit width,
//! the library computes a byte-aligned storage layout, reads and writes each
//! field's bits in a packed byte buffer while preserving all neighbouring
//! bits (including fields whose bit range straddles a storage-unit boundary),
//! converts between raw storage values and logical values (unsigned integers,
//! booleans, closed enumerations), and validates layouts and enum specifiers
//! before any buffer is touched.

pub mod buffer;
pub mod check;
pub mod codec;
pub mod convert;
pub mod enumspec;
pub mod layout;
pub mod packing;
pub mod specifier;

pub use buffer::{PackedBuffer, get_value, set_value};
pub use codec::Access;
pub use convert::{BInto, Value, bool_to_raw, raw_to_bool, enum_to_logical, enum_to_raw};
pub use enumspec::{EnumSpecifierDescriptor, EnumVariant, ValidationError, derive_enum_specifier,
    perfect_log2};
pub use layout::{FieldDescriptor, LayoutError, LayoutPlan, make_accessor, plan_layout};
pub use specifier::{Specifier, ValueKind, bool_specifier, define_specifier, narrowest_raw_width};
