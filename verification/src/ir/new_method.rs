//! The steps that open a stored struct: what is computed first, what the
//! counters start from, and what the caller has to hand in.

use crate::ir::struct_def::Struct;
use crate::model::backend::Backend;
use crate::model::{Field, Model, Wrapper};
use vstd::prelude::*;

verus! {

/// The length of a sequence as the store tells it: the index part of the
/// greatest key below the one byte `next_prefix`, or nothing where there is none.
#[derive(Debug)]
pub struct LenExpr {
    /// The type of the elements.
    pub ty: String,
    /// The first byte above the keys of the field.
    pub next_prefix: u8,
}

/// One step taken before the struct is put together.
#[derive(Debug)]
pub enum Local {
    /// Binds the recovered length of a sequence field to the field's name.
    LenInit { ident: String, expr: LenExpr },
    /// Opens the sled database at the path that the caller handed in.
    SledFromPath,
}

/// A counter member and its start: a fresh shared counter at zero.
#[derive(Debug)]
pub struct FieldValue {
    pub member: String,
}

/// What the caller hands in.
#[derive(Debug, Clone, Copy, PartialEq, Eq, Structural)]
pub enum Arg {
    /// The path of the database.
    Path,
    /// The store itself.
    DataStore,
}

/// How a stored struct is opened.
#[derive(Debug)]
pub struct NewMethod {
    pub locals: Vec<Local>,
    pub fields: Vec<FieldValue>,
    pub vis: String,
    pub arg: Arg,
}

/// The step that recovers the length of `field`, where it is a sequence.
pub open spec fn len_step(field: Field) -> Option<Local> {
    match field.wrapper {
        Wrapper::Vec { ty } => Some(
            Local::LenInit {
                ident: field.ident,
                expr: LenExpr { ty, next_prefix: (field.key + 1) as u8 },
            },
        ),
        _ => None,
    }
}

/// The length steps of the sequence fields among `fields`, in order.
pub open spec fn len_steps(fields: Seq<Field>) -> Seq<Local>
    decreases fields.len(),
{
    if fields.len() == 0 {
        Seq::empty()
    } else {
        let rest = len_steps(fields.drop_last());
        match len_step(fields.last()) {
            Some(step) => rest.push(step),
            None => rest,
        }
    }
}

/// The steps that the backend adds after the length steps.
pub open spec fn backend_steps(backend: Backend) -> Seq<Local> {
    match backend {
        Backend::Sled => seq![Local::SledFromPath],
        _ => Seq::empty(),
    }
}

/// What the caller hands in for a backend.
pub open spec fn arg_for(backend: Backend) -> Arg {
    match backend {
        Backend::Sled => Arg::Path,
        _ => Arg::DataStore,
    }
}

/// The identifier of a sequence field leaves room for the bound above its keys.
pub open spec fn bounded(field: Field) -> bool {
    field.wrapper is Vec ==> field.key < u8::MAX
}

/// The counter `ident`, starting from zero.
pub fn as_len_value(ident: String) -> (r: FieldValue)
    ensures
        r.member == ident,
{
    FieldValue { member: ident }
}

/// The length of the sequence stored under `prefix`, as the store tells it.
pub fn len_expr(ty: &String, prefix: u8) -> (r: LenExpr)
    requires
        prefix < u8::MAX,
    ensures
        r.ty == *ty,
        r.next_prefix == prefix + 1,
{
    LenExpr { ty: ty.clone(), next_prefix: prefix + 1 }
}

/// The step that recovers the length of `field`; none where the field is no sequence.
pub fn len_init(field: &Field) -> (r: Option<Local>)
    requires
        bounded(*field),
    ensures
        r == len_step(*field),
{
    let ty = match &field.wrapper {
        Wrapper::Vec { ty } => ty,
        _ => return None,
    };
    let expr = len_expr(ty, field.key);
    Some(Local::LenInit { ident: field.ident.clone(), expr })
}

/// The step that opens the sled database.
pub fn sled_from_path() -> (r: Local)
    ensures
        r == Local::SledFromPath,
{
    Local::SledFromPath
}

impl NewMethod {
    /// The way to open the struct of `model`: a length step for each
    /// sequence field, then what the backend needs; a counter at zero for
    /// each counter member; and the argument that the backend calls for.
    pub fn from(model: &Model, struct_def: &Struct) -> (r: Self)
        requires
            forall|i: int| 0 <= i < model.fields@.len() ==> bounded(#[trigger] model.fields@[i]),
            forall|i: int|
                0 <= i < struct_def.len_vars@.len() ==> (#[trigger] struct_def.len_vars@[i]).ident
                    is Some,
            !(model.backend is Test),
        ensures
            r.locals@ == len_steps(model.fields@) + backend_steps(model.backend),
            r.fields@.len() == struct_def.len_vars@.len(),
            forall|i: int|
                0 <= i < r.fields@.len() ==> Some((#[trigger] r.fields@[i]).member)
                    == struct_def.len_vars@[i].ident,
            r.vis == model.vis,
            r.arg == arg_for(model.backend),
    {
        let mut locals: Vec<Local> = Vec::new();
        let mut i: usize = 0;
        assert(model.fields@.take(0) =~= Seq::<Field>::empty());
        while i < model.fields.len()
            invariant
                i <= model.fields.len(),
                forall|j: int|
                    0 <= j < model.fields@.len() ==> bounded(#[trigger] model.fields@[j]),
                locals@ == len_steps(model.fields@.take(i as int)),
            decreases model.fields.len() - i,
        {
            proof {
                let upto = model.fields@.take(i + 1);
                assert(upto.drop_last() =~= model.fields@.take(i as int));
                assert(upto.last() == model.fields@[i as int]);
            }
            match len_init(&model.fields[i]) {
                Some(step) => {
                    locals.push(step);
                },
                None => {},
            }
            i = i + 1;
        }
        assert(model.fields@.take(model.fields.len() as int) =~= model.fields@);

        let mut fields: Vec<FieldValue> = Vec::new();
        let mut j: usize = 0;
        while j < struct_def.len_vars.len()
            invariant
                j <= struct_def.len_vars.len(),
                fields@.len() == j,
                forall|k: int|
                    0 <= k < struct_def.len_vars@.len() ==> (
                    #[trigger] struct_def.len_vars@[k]).ident is Some,
                forall|k: int|
                    0 <= k < j ==> Some((#[trigger] fields@[k]).member)
                        == struct_def.len_vars@[k].ident,
            decreases struct_def.len_vars.len() - j,
        {
            match &struct_def.len_vars[j].ident {
                Some(ident) => {
                    fields.push(as_len_value(ident.clone()));
                },
                None => {
                    assert(false);
                },
            }
            j = j + 1;
        }

        let arg = match &model.backend {
            Backend::Sled => {
                locals.push(sled_from_path());
                Arg::Path
            },
            _ => Arg::DataStore,
        };
        assert(locals@ =~= len_steps(model.fields@) + backend_steps(model.backend));
        NewMethod { locals, fields, vis: model.vis.clone(), arg }
    }
}

} // verus!
