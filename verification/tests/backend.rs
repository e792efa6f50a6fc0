use dbstruct::model::attribute::{BackendOption, Options};
use dbstruct::model::backend::{difference, Backend, Error, ExtraBound};
use dbstruct::model::{Field, Wrapper};

fn vec_field() -> Field {
    Field {
        ident: String::from("test_a"),
        vis: String::from("pub"),
        wrapper: Wrapper::Vec {
            ty: String::from("u8"),
        },
        key: 1,
    }
}

#[test]
fn error_on_unsupported_backend() {
    let options = [Options::Backend(BackendOption::Test)];
    let fields = [vec_field()];
    let err = Backend::try_from(&options, &fields).unwrap_err();
    match err {
        Error::MissesTraits { missing, .. } => {
            let correct = vec![ExtraBound::Atomic, ExtraBound::Orderd];
            assert_eq!(missing, correct);
        }
        _ => unreachable!("expected error missingtraits got: {err:?}"),
    }
}

#[test]
fn supported_backend() {
    let options = [Options::Backend(BackendOption::Sled)];
    let fields = [vec_field()];
    let backend = Backend::try_from(&options, &fields).unwrap();
    assert!(matches!(backend, Backend::Sled));
}

#[test]
fn reject_double_backend() {
    let options = [
        Options::Backend(BackendOption::Sled),
        Options::Backend(BackendOption::Sled),
    ];
    let fields = [vec_field()];
    let err = Backend::try_from(&options, &fields).unwrap_err();
    assert!(matches!(err, Error::MultipleBackends));
}

#[test]
fn no_backend_named() {
    let fields = [vec_field()];
    let err = Backend::try_from(&[], &fields).unwrap_err();
    assert!(matches!(err, Error::NoBackendSpecified));
}

#[test]
fn a_backend_left_to_the_user_lists_what_the_fields_need() {
    let options = [Options::Backend(BackendOption::Trait)];
    let fields = [
        vec_field(),
        Field {
            ident: String::from("flag"),
            vis: String::new(),
            wrapper: Wrapper::Option {
                ty: String::from("bool"),
            },
            key: 2,
        },
        Field {
            ident: String::from("ages"),
            vis: String::new(),
            wrapper: Wrapper::Mapping {
                key_ty: String::from("u8"),
                val_ty: String::from("u8"),
            },
            key: 3,
        },
    ];
    match Backend::try_from(&options, &fields).unwrap() {
        Backend::Trait { bounds } => assert_eq!(
            bounds,
            vec![ExtraBound::Atomic, ExtraBound::Orderd, ExtraBound::Atomic]
        ),
        other => unreachable!("expected a backend left to the user, got: {other:?}"),
    }
}

#[test]
fn the_first_unserved_field_is_reported() {
    let options = [Options::Backend(BackendOption::Test)];
    let fields = [
        Field {
            ident: String::from("ages"),
            vis: String::new(),
            wrapper: Wrapper::Mapping {
                key_ty: String::from("u8"),
                val_ty: String::from("u8"),
            },
            key: 3,
        },
        Field {
            ident: String::from("flag"),
            vis: String::new(),
            wrapper: Wrapper::DefaultTrait {
                ty: String::from("bool"),
            },
            key: 2,
        },
        vec_field(),
    ];
    match Backend::try_from(&options, &fields).unwrap_err() {
        Error::MissesTraits { backend, missing } => {
            assert!(matches!(backend, Backend::Test));
            assert_eq!(missing, vec![ExtraBound::Atomic]);
        }
        other => unreachable!("expected missing capabilities, got: {other:?}"),
    }
    let only_map = [Field {
        ident: String::from("ages"),
        vis: String::new(),
        wrapper: Wrapper::Mapping {
            key_ty: String::from("u8"),
            val_ty: String::from("u8"),
        },
        key: 3,
    }];
    assert!(matches!(
        Backend::try_from(&options, &only_map),
        Ok(Backend::Test)
    ));
}

#[test]
fn capabilities_and_their_difference() {
    assert_eq!(
        Backend::Sled.traits(),
        vec![ExtraBound::Atomic, ExtraBound::Orderd]
    );
    assert_eq!(Backend::Test.traits(), vec![]);
    assert_eq!(
        difference(
            &vec![ExtraBound::Atomic, ExtraBound::Orderd],
            &vec![ExtraBound::Orderd]
        ),
        vec![ExtraBound::Atomic]
    );
    assert_eq!(
        difference(&vec![ExtraBound::Atomic], &vec![ExtraBound::Atomic]),
        vec![]
    );
}
