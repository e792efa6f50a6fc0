//! The four methods of a field that holds a single value with a default:
//! a setter, a getter, an update and a compare-and-swap.

use vstd::prelude::*;
use vstd::string::StringExecFns;

verus! {

/// What a method does with its field.
#[derive(Debug, Clone, Copy, PartialEq, Eq, Structural)]
pub enum Operation {
    /// Writes a value, the default too.
    Setter,
    /// Reads the value; no entry reads as the default.
    Getter,
    /// Replaces the value by what a function makes of it, atomically.
    Update,
    /// Writes a value if the current one is the expected one.
    CompareAndSwap,
}

/// One method of a field.
#[derive(Debug)]
pub struct Method {
    pub operation: Operation,
    pub name: String,
    /// The type of the field's value.
    pub full_type: String,
    /// The key under which the value is stored.
    pub key: String,
    /// The expression of the default, where the operation needs it.
    pub default_val: Option<String>,
}

/// The name of the method for `operation` on the field `ident`.
pub open spec fn method_name(operation: Operation, ident: Seq<char>) -> Seq<char> {
    match operation {
        Operation::Setter => "set_"@ + ident,
        Operation::Getter => ident,
        Operation::Update => "update_"@ + ident,
        Operation::CompareAndSwap => "compare_and_swap_"@ + ident,
    }
}

/// `method` is the method for `operation` on the field `ident` of type
/// `full_type` stored under `key`.
pub open spec fn is_method(
    method: Method,
    operation: Operation,
    ident: Seq<char>,
    full_type: Seq<char>,
    key: Seq<char>,
) -> bool {
    &&& method.operation == operation
    &&& method.name@ == method_name(operation, ident)
    &&& method.full_type@ == full_type
    &&& method.key@ == key
}

/// The default that `method` falls back on is the expression `default_val`.
pub open spec fn defaults_to(method: Method, default_val: Seq<char>) -> bool {
    method.default_val matches Some(d) && d@ == default_val
}

/// The setter, the getter, the update and the compare-and-swap of the field
/// `ident`, in this order.
pub fn methods(ident: &str, full_type: &str, key: &str, default_val: &str) -> (r: Vec<Method>)
    ensures
        r@.len() == 4,
        is_method(r@[0], Operation::Setter, ident@, full_type@, key@),
        r@[0].default_val is None,
        is_method(r@[1], Operation::Getter, ident@, full_type@, key@),
        defaults_to(r@[1], default_val@),
        is_method(r@[2], Operation::Update, ident@, full_type@, key@),
        defaults_to(r@[2], default_val@),
        is_method(r@[3], Operation::CompareAndSwap, ident@, full_type@, key@),
        defaults_to(r@[3], default_val@),
{
    let mut out: Vec<Method> = Vec::new();
    out.push(setter(ident, full_type, key));
    out.push(getter(ident, full_type, key, default_val));
    out.push(update(ident, full_type, key, default_val));
    out.push(compare_and_swap(ident, full_type, key, default_val));
    out
}

/// The method `set_` and the field's name: it needs no default, for it
/// writes whatever it is given.
pub fn setter(ident: &str, full_type: &str, key: &str) -> (r: Method)
    ensures
        is_method(r, Operation::Setter, ident@, full_type@, key@),
        r.default_val is None,
{
    Method {
        operation: Operation::Setter,
        name: String::from_str("set_").concat(ident),
        full_type: String::from_str(full_type),
        key: String::from_str(key),
        default_val: None,
    }
}

/// The method with the field's own name.
pub fn getter(ident: &str, full_type: &str, key: &str, default_val: &str) -> (r: Method)
    ensures
        is_method(r, Operation::Getter, ident@, full_type@, key@),
        defaults_to(r, default_val@),
{
    Method {
        operation: Operation::Getter,
        name: String::from_str(ident),
        full_type: String::from_str(full_type),
        key: String::from_str(key),
        default_val: Some(String::from_str(default_val)),
    }
}

/// The method `update_` and the field's name.
pub fn update(ident: &str, full_type: &str, key: &str, default_val: &str) -> (r: Method)
    ensures
        is_method(r, Operation::Update, ident@, full_type@, key@),
        defaults_to(r, default_val@),
{
    Method {
        operation: Operation::Update,
        name: String::from_str("update_").concat(ident),
        full_type: String::from_str(full_type),
        key: String::from_str(key),
        default_val: Some(String::from_str(default_val)),
    }
}

/// The method `compare_and_swap_` and the field's name.
pub fn compare_and_swap(ident: &str, full_type: &str, key: &str, default_val: &str) -> (r: Method)
    ensures
        is_method(r, Operation::CompareAndSwap, ident@, full_type@, key@),
        defaults_to(r, default_val@),
{
    Method {
        operation: Operation::CompareAndSwap,
        name: String::from_str("compare_and_swap_").concat(ident),
        full_type: String::from_str(full_type),
        key: String::from_str(key),
        default_val: Some(String::from_str(default_val)),
    }
}

} // verus!
