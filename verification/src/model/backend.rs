//! The backend of a schema, checked against what the fields need of it.

use crate::model::attribute::{BackendOption, Options};
use crate::model::{needed, Field};
use vstd::prelude::*;

verus! {

/// A capability of a backend beyond plain reads and writes.
#[derive(PartialEq, Eq, Hash, Clone, Copy, Debug, Structural)]
pub enum ExtraBound {
    /// Single entries can be updated and swapped atomically.
    Atomic,
    /// The entry next below a key can be found.
    Orderd,
}

/// The backend of a schema.
#[derive(Debug, Clone)]
pub enum Backend {
    Sled,
    Trait { bounds: Vec<ExtraBound> },
    Test,
}

/// Why a schema has no usable backend.
#[derive(Debug)]
pub enum Error {
    /// More than one backend is named.
    MultipleBackends,
    /// No backend is named.
    NoBackendSpecified,
    /// A field needs capabilities that the backend lacks.
    MissesTraits { backend: Backend, missing: Vec<ExtraBound> },
}

/// The backends that the options name, in order.
pub open spec fn named_backends(options: Seq<Options>) -> Seq<BackendOption>
    decreases options.len(),
{
    if options.len() == 0 {
        Seq::empty()
    } else {
        match options.last() {
            Options::Backend(b) => named_backends(options.drop_last()).push(b),
        }
    }
}

/// The members of `needed` that `have` lacks, in order.
pub open spec fn lacking(needed: Seq<ExtraBound>, have: Seq<ExtraBound>) -> Seq<ExtraBound>
    decreases needed.len(),
{
    if needed.len() == 0 {
        Seq::empty()
    } else {
        let rest = lacking(needed.drop_last(), have);
        if have.contains(needed.last()) {
            rest
        } else {
            rest.push(needed.last())
        }
    }
}

/// What all the fields need, field by field.
pub open spec fn needed_by_all(fields: Seq<Field>) -> Seq<ExtraBound>
    decreases fields.len(),
{
    if fields.len() == 0 {
        Seq::empty()
    } else {
        needed_by_all(fields.drop_last()) + needed(fields.last().wrapper)
    }
}

/// The capabilities of a backend that is not left to the user.
pub open spec fn offered(backend: Backend) -> Seq<ExtraBound> {
    match backend {
        Backend::Sled => seq![ExtraBound::Atomic, ExtraBound::Orderd],
        _ => Seq::empty(),
    }
}

/// What `lacking` leaves is what is needed and not at hand.
pub proof fn lemma_lacking_is_difference(
    needed: Seq<ExtraBound>,
    have: Seq<ExtraBound>,
    bound: ExtraBound,
)
    ensures
        lacking(needed, have).contains(bound) <==> needed.contains(bound) && !have.contains(bound),
    decreases needed.len(),
{
    if needed.len() > 0 {
        let init = needed.drop_last();
        let rest = lacking(init, have);
        lemma_lacking_is_difference(init, have, bound);
        if needed.contains(bound) {
            let i = choose|i: int| 0 <= i < needed.len() && needed[i] == bound;
            if i < init.len() {
                assert(init[i] == bound);
            }
        }
        if init.contains(bound) {
            let i = choose|i: int| 0 <= i < init.len() && init[i] == bound;
            assert(needed[i] == bound);
        }
        if !have.contains(needed.last()) {
            let all = rest.push(needed.last());
            if rest.contains(bound) {
                let i = choose|i: int| 0 <= i < rest.len() && rest[i] == bound;
                assert(all[i] == bound);
            }
            if needed.last() == bound {
                assert(all[rest.len() as int] == bound);
                assert(needed[needed.len() - 1] == bound);
            }
        } else if needed.last() == bound {
            assert(needed[needed.len() - 1] == bound);
        }
    }
}

/// Whether `bound` is among `bounds`.
fn has_bound(bounds: &Vec<ExtraBound>, bound: ExtraBound) -> (r: bool)
    ensures
        r == bounds@.contains(bound),
{
    let mut i: usize = 0;
    while i < bounds.len()
        invariant
            i <= bounds.len(),
            forall|j: int| 0 <= j < i ==> bounds@[j] != bound,
        decreases bounds.len() - i,
    {
        if bounds[i] == bound {
            return true;
        }
        i = i + 1;
    }
    false
}

/// The members of `needed` that `have` lacks.
pub fn difference(needed: &Vec<ExtraBound>, have: &Vec<ExtraBound>) -> (r: Vec<ExtraBound>)
    ensures
        r@ == lacking(needed@, have@),
{
    let mut out: Vec<ExtraBound> = Vec::new();
    let mut i: usize = 0;
    assert(needed@.take(0) =~= Seq::<ExtraBound>::empty());
    while i < needed.len()
        invariant
            i <= needed.len(),
            out@ == lacking(needed@.take(i as int), have@),
        decreases needed.len() - i,
    {
        proof {
            let upto = needed@.take(i + 1);
            assert(upto.drop_last() =~= needed@.take(i as int));
            assert(upto.last() == needed@[i as int]);
        }
        if !has_bound(have, needed[i]) {
            out.push(needed[i]);
        }
        i = i + 1;
    }
    assert(needed@.take(needed.len() as int) =~= needed@);
    out
}

impl Backend {
    /// The extra capabilities of the backend.
    pub fn traits(&self) -> (r: Vec<ExtraBound>)
        requires
            !(self is Trait),
        ensures
            r@ == offered(*self),
    {
        let mut out: Vec<ExtraBound> = Vec::new();
        match self {
            Backend::Sled => {
                out.push(ExtraBound::Atomic);
                out.push(ExtraBound::Orderd);
            },
            _ => {},
        }
        assert(out@ =~= offered(*self));
        out
    }
}

/// The backend that an option names, where it is not left to the user.
pub open spec fn fixed_backend(option: BackendOption) -> Backend {
    match option {
        BackendOption::Test => Backend::Test,
        _ => Backend::Sled,
    }
}

/// What the field lacks of the backend.
pub open spec fn missing_for(field: Field, backend: Backend) -> Seq<ExtraBound> {
    lacking(needed(field.wrapper), offered(backend))
}

/// `at` is the first field that lacks something of the backend.
pub open spec fn first_unserved(fields: Seq<Field>, backend: Backend, at: int) -> bool {
    &&& 0 <= at < fields.len()
    &&& missing_for(fields[at], backend).len() > 0
    &&& forall|j: int| 0 <= j < at ==> missing_for(#[trigger] fields[j], backend).len() == 0
}

/// Every field finds what it needs in the backend.
pub open spec fn all_served(fields: Seq<Field>, backend: Backend) -> bool {
    forall|j: int| 0 <= j < fields.len() ==> missing_for(#[trigger] fields[j], backend).len() == 0
}

/// The backends that the options name.
fn backends_of(options: &[Options]) -> (r: Vec<BackendOption>)
    ensures
        r@ == named_backends(options@),
{
    let mut out: Vec<BackendOption> = Vec::new();
    let mut i: usize = 0;
    assert(options@.take(0) =~= Seq::<Options>::empty());
    while i < options.len()
        invariant
            i <= options.len(),
            out@ == named_backends(options@.take(i as int)),
        decreases options.len() - i,
    {
        proof {
            let upto = options@.take(i + 1);
            assert(upto.drop_last() =~= options@.take(i as int));
            assert(upto.last() == options@[i as int]);
        }
        match options[i] {
            Options::Backend(b) => {
                out.push(b);
            },
        }
        i = i + 1;
    }
    assert(options@.take(options.len() as int) =~= options@);
    out
}

/// What all the fields need, field by field.
fn bounds_of(fields: &[Field]) -> (r: Vec<ExtraBound>)
    ensures
        r@ == needed_by_all(fields@),
{
    let mut out: Vec<ExtraBound> = Vec::new();
    let mut i: usize = 0;
    assert(fields@.take(0) =~= Seq::<Field>::empty());
    while i < fields.len()
        invariant
            i <= fields.len(),
            out@ == needed_by_all(fields@.take(i as int)),
        decreases fields.len() - i,
    {
        proof {
            let upto = fields@.take(i + 1);
            assert(upto.drop_last() =~= fields@.take(i as int));
            assert(upto.last() == fields@[i as int]);
        }
        let mut more = fields[i].wrapper.needed_traits();
        out.append(&mut more);
        i = i + 1;
    }
    assert(fields@.take(fields.len() as int) =~= fields@);
    out
}

impl Backend {
    /// Picks the backend that the options name and checks that it offers
    /// what every field needs.
    ///
    /// Exactly one backend must be named. A backend left to the user is
    /// accepted with the list of what the fields need of it. Any other is
    /// refused with what the first unserved field lacks.
    pub fn try_from(options: &[Options], fields: &[Field]) -> (r: Result<Backend, Error>)
        ensures
            named_backends(options@).len() == 0 <==> r matches Err(Error::NoBackendSpecified),
            named_backends(options@).len() >= 2 <==> r matches Err(Error::MultipleBackends),
            named_backends(options@).len() == 1 ==> {
                let option = named_backends(options@)[0];
                let backend = fixed_backend(option);
                if option == BackendOption::Trait {
                    r matches Ok(Backend::Trait { bounds }) && bounds@ == needed_by_all(fields@)
                } else if all_served(fields@, backend) {
                    r matches Ok(b) && b == backend
                } else {
                    r matches Err(Error::MissesTraits { backend: b, missing }) && b == backend
                        && exists|at: int|
                        first_unserved(fields@, backend, at) && missing@ == missing_for(
                            #[trigger] fields@[at],
                            backend,
                        )
                }
            },
    {
        let backends = backends_of(options);
        if backends.len() == 0 {
            return Err(Error::NoBackendSpecified);
        }
        if backends.len() >= 2 {
            return Err(Error::MultipleBackends);
        }
        let backend = match backends[0] {
            BackendOption::Trait => {
                return Ok(Backend::Trait { bounds: bounds_of(fields) });
            },
            BackendOption::Sled => Backend::Sled,
            BackendOption::Test => Backend::Test,
        };
        let have = backend.traits();
        let mut i: usize = 0;
        while i < fields.len()
            invariant
                i <= fields.len(),
                backends@ == named_backends(options@),
                backends@.len() == 1,
                backends@[0] != BackendOption::Trait,
                backend == fixed_backend(backends@[0]),
                have@ == offered(backend),
                forall|j: int| 0 <= j < i ==> missing_for(#[trigger] fields@[j], backend).len() == 0,
            decreases fields.len() - i,
        {
            let needed = fields[i].wrapper.needed_traits();
            let missing = difference(&needed, &have);
            if missing.len() > 0 {
                assert(first_unserved(fields@, backend, i as int));
                return Err(Error::MissesTraits { backend, missing });
            }
            i = i + 1;
        }
        Ok(backend)
    }
}

} // verus!
