//! The members of the struct that is made for a schema.

use crate::ir::accessor::{len_ident, len_name};
use crate::model::{Field, Model, Wrapper};
use vstd::prelude::*;

verus! {

/// A member that counts the elements of one sequence field.
#[derive(Debug)]
pub struct LenVar {
    pub ident: Option<String>,
}

/// The struct that is made for a schema.
#[derive(Debug)]
pub struct Struct {
    /// One counter for each sequence field, in the order of the fields.
    pub len_vars: Vec<LenVar>,
}

/// The names of the counters for the sequence fields among `fields`, in order.
pub open spec fn counter_names(fields: Seq<Field>) -> Seq<Seq<char>>
    decreases fields.len(),
{
    if fields.len() == 0 {
        Seq::empty()
    } else {
        let rest = counter_names(fields.drop_last());
        match fields.last().wrapper {
            Wrapper::Vec { .. } => rest.push(len_name(fields.last().ident@)),
            _ => rest,
        }
    }
}

/// Every counter has a name, and the names are `names`.
pub open spec fn named(len_vars: Seq<LenVar>, names: Seq<Seq<char>>) -> bool {
    &&& len_vars.len() == names.len()
    &&& forall|i: int|
        0 <= i < len_vars.len() ==> ((#[trigger] len_vars[i]).ident matches Some(name) && name@
            == names[i])
}

impl Struct {
    /// The struct for `model`: one counter for each sequence field, named
    /// after the field.
    pub fn from(model: &Model) -> (r: Self)
        ensures
            named(r.len_vars@, counter_names(model.fields@)),
    {
        let mut len_vars: Vec<LenVar> = Vec::new();
        let mut i: usize = 0;
        assert(model.fields@.take(0) =~= Seq::<Field>::empty());
        while i < model.fields.len()
            invariant
                i <= model.fields.len(),
                named(len_vars@, counter_names(model.fields@.take(i as int))),
            decreases model.fields.len() - i,
        {
            proof {
                let upto = model.fields@.take(i + 1);
                assert(upto.drop_last() =~= model.fields@.take(i as int));
                assert(upto.last() == model.fields@[i as int]);
            }
            match &model.fields[i].wrapper {
                Wrapper::Vec { .. } => {
                    len_vars.push(LenVar { ident: Some(len_ident(&model.fields[i].ident)) });
                },
                _ => {},
            }
            i = i + 1;
        }
        assert(model.fields@.take(model.fields.len() as int) =~= model.fields@);
        Struct { len_vars }
    }
}

} // verus!
