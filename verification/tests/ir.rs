use dbstruct::ir::accessor::{len_ident, Accessor, Body, Returns};
use dbstruct::ir::new_method::{
    as_len_value, len_expr, len_init, sled_from_path, Arg, Local, NewMethod,
};
use dbstruct::ir::struct_def::Struct;
use dbstruct::methods::default::{
    compare_and_swap, getter, methods, setter, update, Operation,
};
use dbstruct::model::backend::{Backend, ExtraBound};
use dbstruct::model::{Field, Model, Wrapper};

fn field(wrapper: Wrapper) -> Field {
    Field {
        ident: String::from("test_a"),
        vis: String::from("pub"),
        wrapper,
        key: 1,
    }
}

fn mock_vec() -> Model {
    Model {
        ident: String::from("Test"),
        vis: String::from("pub"),
        fields: vec![Field {
            ident: String::from("u8_field"),
            vis: String::from("pub"),
            wrapper: Wrapper::Vec {
                ty: String::from("u8"),
            },
            key: 1,
        }],
        backend: Backend::Sled,
    }
}

#[test]
fn default() {
    let field = field(Wrapper::DefaultTrait {
        ty: String::from("u8"),
    });
    let a = Accessor::from(field);
    assert_eq!(a.ident, "test_a");
    assert_eq!(a.vis, "pub");
    assert!(matches!(a.return_type, Returns::DefaultTrait { ty } if ty == "u8"));
    assert!(matches!(a.body, Body::DefaultTrait { key: 1 }));
}

#[test]
fn defaultval() {
    let field = field(Wrapper::DefaultValue {
        ty: String::from("u8"),
        value: String::from("5 + 12"),
    });
    let a = Accessor::from(field);
    assert!(matches!(a.return_type, Returns::DefaultValue { ty } if ty == "u8"));
    assert!(matches!(a.body, Body::DefaultValue { key: 1, value } if value == "5 + 12"));
}

#[test]
fn option() {
    let field = field(Wrapper::Option {
        ty: String::from("u8"),
    });
    let a = Accessor::from(field);
    assert!(matches!(a.return_type, Returns::OptionValue { ty } if ty == "u8"));
    assert!(matches!(a.body, Body::OptionValue { key: 1 }));
}

#[test]
fn vec() {
    let field = field(Wrapper::Vec {
        ty: String::from("u8"),
    });
    let a = Accessor::from(field);
    assert!(matches!(a.return_type, Returns::Sequence { ty } if ty == "u8"));
    assert!(matches!(a.body, Body::Sequence { key: 1, len_ident } if len_ident == "test_a_len"));
}

#[test]
fn map() {
    let field = field(Wrapper::Mapping {
        key_ty: String::from("u8"),
        val_ty: String::from("u16"),
    });
    let a = Accessor::from(field);
    assert!(
        matches!(a.return_type, Returns::Mapping { key_ty, val_ty } if key_ty == "u8" && val_ty == "u16")
    );
    assert!(matches!(a.body, Body::Mapping { key: 1 }));
}

#[test]
fn has_one_local() {
    let model = mock_vec();
    let struct_def = Struct::from(&model);
    let new_method = NewMethod::from(&model, &struct_def);
    assert!(new_method.locals.len() == 2);
}

fn render(local: &Local) -> String {
    match local {
        Local::LenInit { ident, expr } => format!(
            "let {} = dbstruct::traits::data_store::Orderd::get_lt(&ds, &{}u8)?\
             .map(|(len, _): (u8, {})| len).unwrap_or(0);",
            ident, expr.next_prefix, expr.ty
        ),
        Local::SledFromPath => String::from(
            "let ds = sled::Config::default().path(path).open()?.open_tree(\"DbStruct\")?;",
        ),
    }
}

#[test]
fn body_is_valid_rust() {
    let model = mock_vec();
    let struct_def = Struct::from(&model);
    let new_method = NewMethod::from(&model, &struct_def);

    let stmts: Vec<String> = new_method.locals.iter().map(render).collect();
    let tokens = format!("{{ {} }}", stmts.join(" "));
    println!("{tokens}");
    assert!(syn::parse_str::<syn::Block>(&tokens).is_ok())
}

#[test]
fn new_method_of_a_sled_schema() {
    let model = mock_vec();
    let struct_def = Struct::from(&model);
    assert_eq!(struct_def.len_vars.len(), 1);
    assert_eq!(struct_def.len_vars[0].ident.as_deref(), Some("u8_field_len"));
    let new_method = NewMethod::from(&model, &struct_def);
    assert!(
        matches!(&new_method.locals[0], Local::LenInit { ident, expr } if ident == "u8_field" && expr.ty == "u8" && expr.next_prefix == 2)
    );
    assert!(matches!(&new_method.locals[1], Local::SledFromPath));
    assert_eq!(new_method.fields.len(), 1);
    assert_eq!(new_method.fields[0].member, "u8_field_len");
    assert_eq!(new_method.vis, "pub");
    assert_eq!(new_method.arg, Arg::Path);
}

#[test]
fn new_method_of_a_schema_on_a_given_store() {
    let mut model = mock_vec();
    model.backend = Backend::Trait {
        bounds: vec![ExtraBound::Atomic, ExtraBound::Orderd],
    };
    model.fields.push(Field {
        ident: String::from("flag"),
        vis: String::new(),
        wrapper: Wrapper::DefaultTrait {
            ty: String::from("bool"),
        },
        key: 2,
    });
    let struct_def = Struct::from(&model);
    let new_method = NewMethod::from(&model, &struct_def);
    assert_eq!(new_method.locals.len(), 1);
    assert_eq!(new_method.fields.len(), 1);
    assert_eq!(new_method.arg, Arg::DataStore);
}

#[test]
fn pieces_of_the_new_method() {
    assert_eq!(len_ident(&String::from("queue")), "queue_len");
    assert_eq!(as_len_value(String::from("queue_len")).member, "queue_len");
    let expr = len_expr(&String::from("Song"), 41);
    assert_eq!(expr.ty, "Song");
    assert_eq!(expr.next_prefix, 42);
    assert!(matches!(sled_from_path(), Local::SledFromPath));
    assert!(len_init(&field(Wrapper::Option {
        ty: String::from("u8")
    }))
    .is_none());
    assert!(matches!(
        len_init(&field(Wrapper::Vec { ty: String::from("u8") })),
        Some(Local::LenInit { ident, expr }) if ident == "test_a" && expr.next_prefix == 2
    ));
}

#[test]
fn needed_traits_by_wrapper() {
    let ty = || String::from("u8");
    assert_eq!(
        Wrapper::Vec { ty: ty() }.needed_traits(),
        vec![ExtraBound::Atomic, ExtraBound::Orderd]
    );
    assert_eq!(
        Wrapper::Mapping {
            key_ty: ty(),
            val_ty: ty()
        }
        .needed_traits(),
        vec![]
    );
    assert_eq!(
        Wrapper::DefaultTrait { ty: ty() }.needed_traits(),
        vec![ExtraBound::Atomic]
    );
    assert_eq!(
        Wrapper::DefaultValue {
            ty: ty(),
            value: ty()
        }
        .needed_traits(),
        vec![ExtraBound::Atomic]
    );
    assert_eq!(
        Wrapper::Option { ty: ty() }.needed_traits(),
        vec![ExtraBound::Atomic]
    );
}

#[test]
fn four_methods_named_after_the_field() {
    let all = methods("volume", "u16", "3", "700");
    assert_eq!(all.len(), 4);
    let names: Vec<&str> = all.iter().map(|m| m.name.as_str()).collect();
    assert_eq!(
        names,
        vec![
            "set_volume",
            "volume",
            "update_volume",
            "compare_and_swap_volume"
        ]
    );
    let operations: Vec<Operation> = all.iter().map(|m| m.operation).collect();
    assert_eq!(
        operations,
        vec![
            Operation::Setter,
            Operation::Getter,
            Operation::Update,
            Operation::CompareAndSwap
        ]
    );
    for m in &all {
        assert_eq!(m.full_type, "u16");
        assert_eq!(m.key, "3");
    }
    assert_eq!(all[0].default_val, None);
    for m in &all[1..] {
        assert_eq!(m.default_val.as_deref(), Some("700"));
    }
}

#[test]
fn each_method_alone() {
    assert_eq!(setter("a", "u8", "1").name, "set_a");
    assert_eq!(getter("a", "u8", "1", "0").name, "a");
    assert_eq!(update("a", "u8", "1", "0").name, "update_a");
    assert_eq!(
        compare_and_swap("a", "u8", "1", "0").name,
        "compare_and_swap_a"
    );
}
