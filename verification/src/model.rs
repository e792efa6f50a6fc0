//! The schema of a stored struct: its fields, the wrapper each field is
//! accessed through, and the backend that holds them.

pub mod attribute;
pub mod backend;

use crate::model::backend::{Backend, ExtraBound};
use vstd::prelude::*;

verus! {

/// The kind of wrapper a field is accessed through, with the names of its types.
#[derive(Debug)]
pub enum Wrapper {
    /// A sequence that grows and shrinks at its tail.
    Vec { ty: String },
    /// An associative map.
    Mapping { key_ty: String, val_ty: String },
    /// A single value; no entry stands for the type's default value.
    DefaultTrait { ty: String },
    /// A single value; no entry stands for the value of the expression `value`.
    DefaultValue { ty: String, value: String },
    /// A single value that may be absent.
    Option { ty: String },
}

/// One field of the schema.
#[derive(Debug)]
pub struct Field {
    pub ident: String,
    pub vis: String,
    pub wrapper: Wrapper,
    /// The identifier under which the field's entries are stored.
    pub key: u8,
}

/// The whole schema.
#[derive(Debug)]
pub struct Model {
    pub ident: String,
    pub vis: String,
    pub fields: Vec<Field>,
    pub backend: Backend,
}

/// The capabilities that a wrapper needs beyond plain reads and writes, in
/// the order of their declaration and without repetition.
pub open spec fn needed(wrapper: Wrapper) -> Seq<ExtraBound> {
    match wrapper {
        Wrapper::Vec { .. } => seq![ExtraBound::Atomic, ExtraBound::Orderd],
        Wrapper::Mapping { .. } => Seq::empty(),
        Wrapper::DefaultTrait { .. } => seq![ExtraBound::Atomic],
        Wrapper::DefaultValue { .. } => seq![ExtraBound::Atomic],
        Wrapper::Option { .. } => seq![ExtraBound::Atomic],
    }
}

impl Wrapper {
    /// The capabilities that the wrapper needs beyond plain reads and writes:
    /// a sequence recovers its length from the key order and counts under
    /// concurrent use, a single value is updated and swapped atomically, a
    /// map needs neither.
    pub fn needed_traits(&self) -> (r: Vec<ExtraBound>)
        ensures
            r@ == needed(*self),
    {
        let mut out: Vec<ExtraBound> = Vec::new();
        match self {
            Wrapper::Vec { .. } => {
                out.push(ExtraBound::Atomic);
                out.push(ExtraBound::Orderd);
            },
            Wrapper::Mapping { .. } => {},
            Wrapper::DefaultTrait { .. } => {
                out.push(ExtraBound::Atomic);
            },
            Wrapper::DefaultValue { .. } => {
                out.push(ExtraBound::Atomic);
            },
            Wrapper::Option { .. } => {
                out.push(ExtraBound::Atomic);
            },
        }
        assert(out@ =~= needed(*self));
        out
    }
}

} // verus!
