//! The accessor of a field: which wrapper it hands out, and from what the
//! wrapper is made.

use crate::model::{Field, Wrapper};
use vstd::prelude::*;
use vstd::string::StringExecFns;

verus! {

/// The wrapper type that an accessor returns, with the names of its types.
#[derive(Debug)]
pub enum Returns {
    /// `GrowableSequence<ty>`
    Sequence { ty: String },
    /// `AssociativeMap<key_ty, val_ty>`
    Mapping { key_ty: String, val_ty: String },
    /// `DefaultTrait<ty>`
    DefaultTrait { ty: String },
    /// `DefaultValue<ty>`
    DefaultValue { ty: String },
    /// `OptionValue<ty>`
    OptionValue { ty: String },
}

/// The call that makes the wrapper: its constructor and the arguments
/// besides the store.
#[derive(Debug)]
pub enum Body {
    /// A sequence of the field `key`, counted by the struct's member `len_ident`.
    Sequence { key: u8, len_ident: String },
    /// A map of the field `key`.
    Mapping { key: u8 },
    /// A value of the field `key` that defaults to its type's default.
    DefaultTrait { key: u8 },
    /// A value of the field `key` that defaults to the expression `value`.
    DefaultValue { key: u8, value: String },
    /// An optional value of the field `key`.
    OptionValue { key: u8 },
}

/// The accessor of one field.
#[derive(Debug)]
pub struct Accessor {
    pub vis: String,
    pub ident: String,
    pub return_type: Returns,
    pub body: Body,
}

/// The name of the member that counts the sequence `ident`.
pub open spec fn len_name(ident: Seq<char>) -> Seq<char> {
    ident + "_len"@
}

/// The name of the member that counts the sequence `ident`.
pub fn len_ident(ident: &String) -> (r: String)
    ensures
        r@ == len_name(ident@),
{
    ident.clone().concat("_len")
}

/// The wrapper type for a wrapper kind.
pub open spec fn returns_of(wrapper: Wrapper) -> Returns {
    match wrapper {
        Wrapper::Vec { ty } => Returns::Sequence { ty },
        Wrapper::Mapping { key_ty, val_ty } => Returns::Mapping { key_ty, val_ty },
        Wrapper::DefaultTrait { ty } => Returns::DefaultTrait { ty },
        Wrapper::DefaultValue { ty, value } => Returns::DefaultValue { ty },
        Wrapper::Option { ty } => Returns::OptionValue { ty },
    }
}

/// `body` is the call that makes the wrapper of `field`.
pub open spec fn makes(body: Body, field: Field) -> bool {
    match field.wrapper {
        Wrapper::Vec { .. } => body matches Body::Sequence { key, len_ident } && key == field.key
            && len_ident@ == len_name(field.ident@),
        Wrapper::Mapping { .. } => body == (Body::Mapping { key: field.key }),
        Wrapper::DefaultTrait { .. } => body == (Body::DefaultTrait { key: field.key }),
        Wrapper::DefaultValue { ty, value } => body == (Body::DefaultValue {
            key: field.key,
            value,
        }),
        Wrapper::Option { .. } => body == (Body::OptionValue { key: field.key }),
    }
}

impl Accessor {
    /// The accessor of `field`: it keeps the field's name and visibility,
    /// hands out the wrapper of the field's kind over the field's types, and
    /// makes it for the field's identifier.
    pub fn from(field: Field) -> (r: Self)
        ensures
            r.vis == field.vis,
            r.ident == field.ident,
            r.return_type == returns_of(field.wrapper),
            makes(r.body, field),
    {
        let key = field.key;
        let (body, return_type) = match field.wrapper {
            Wrapper::Vec { ty } => {
                let body = Body::Sequence { key, len_ident: len_ident(&field.ident) };
                (body, Returns::Sequence { ty })
            },
            Wrapper::Mapping { key_ty, val_ty } => {
                (Body::Mapping { key }, Returns::Mapping { key_ty, val_ty })
            },
            Wrapper::DefaultTrait { ty } => {
                (Body::DefaultTrait { key }, Returns::DefaultTrait { ty })
            },
            Wrapper::DefaultValue { ty, value } => {
                (Body::DefaultValue { key, value }, Returns::DefaultValue { ty })
            },
            Wrapper::Option { ty } => {
                (Body::OptionValue { key }, Returns::OptionValue { ty })
            },
        };
        Accessor { vis: field.vis, ident: field.ident, return_type, body }
    }
}

} // verus!
