use juniper::value::{ScalarValue, Value};
use juniper::registry::{
    Argument, build_object_type, string_fields, BuiltinScalar, Field, MetaType, Registry, RegistryError,
    TypeRef,
};

fn s(x: &str) -> String {
    x.to_string()
}

fn obj(name: &str, fields: Vec<(&str, &str)>) -> MetaType {
    build_object_type(
        s(name),
        fields
            .into_iter()
            .map(|(f, t)| Field { name: s(f), ty: TypeRef::Named(s(t)), arguments: vec![], deprecation: None })
            .collect(),
    )
}

#[test]
fn finalize_accepts_consistent_registry() {
    let mut r = Registry::new();
    r.register(MetaType::Scalar { name: s("Int"), kind: BuiltinScalar::Int });
    r.register(obj("A", vec![("b", "B")]));
    r.register(obj("B", vec![("a", "A")]));
    assert_eq!(r.finalize(), Ok(()));
}

#[test]
fn finalize_accepts_identical_duplicate() {
    let mut r = Registry::new();
    r.register(obj("A", vec![("x", "Int")]));
    r.register(obj("A", vec![("x", "Int")]));
    assert_eq!(r.finalize(), Ok(()));
}

#[test]
fn finalize_rejects_conflicting_shapes() {
    let mut r = Registry::new();
    r.register(obj("A", vec![("x", "Int")]));
    r.register(obj("A", vec![("x", "String")]));
    assert_eq!(r.finalize(), Err(RegistryError::Conflict(s("A"))));
}

#[test]
fn finalize_rejects_different_kinds_under_one_name() {
    let mut r = Registry::new();
    r.register(MetaType::Scalar { name: s("A"), kind: BuiltinScalar::Int });
    r.register(MetaType::Enum { name: s("A"), values: vec![] });
    assert_eq!(r.finalize(), Err(RegistryError::Conflict(s("A"))));
}

#[test]
fn finalize_rejects_unresolved_placeholder() {
    let mut r = Registry::new();
    assert!(r.reserve(s("A")));
    assert_eq!(r.finalize(), Err(RegistryError::Unresolved(s("A"))));
    r.register(obj("A", vec![]));
    assert_eq!(r.finalize(), Ok(()));
}

#[test]
fn reserve_supports_cyclic_construction() {
    let mut r = Registry::new();
    assert!(r.reserve(s("A")));
    assert!(r.reserve(s("B")));
    assert!(!r.reserve(s("A")));
    r.register(obj("B", vec![("a", "A")]));
    r.register(obj("A", vec![("b", "B")]));
    assert_eq!(r.types.len(), 4);
    assert_eq!(r.get(&s("A")), Some(&obj("A", vec![("b", "B")])));
    assert_eq!(r.get(&s("C")), None);
    assert_eq!(r.finalize(), Ok(()));
}

#[test]
fn string_fields_follow_names() {
    let f = string_fields(&vec![s("foo"), s("bar")]);
    assert_eq!(f.len(), 2);
    assert_eq!(f[1].name, s("bar"));
    assert_eq!(f[0].ty, TypeRef::NonNull(Box::new(TypeRef::Named(s("String")))));
}

#[test]
fn finalize_compares_defaults_and_deprecations() {
    let with = |default: Option<Value>, deprecation: Option<String>| {
        build_object_type(
            s("A"),
            vec![Field {
                name: s("f"),
                ty: TypeRef::Named(s("Int")),
                arguments: vec![Argument { name: s("x"), ty: TypeRef::Named(s("Int")), default }],
                deprecation,
            }],
        )
    };
    let one = || Some(Value::Scalar(ScalarValue::Int(1)));
    let mut r = Registry::new();
    r.register(with(one(), None));
    r.register(with(one(), None));
    assert_eq!(r.finalize(), Ok(()));
    r.register(with(Some(Value::Scalar(ScalarValue::Int(2))), None));
    assert_eq!(r.finalize(), Err(RegistryError::Conflict(s("A"))));
    let mut r = Registry::new();
    r.register(with(one(), None));
    r.register(with(one(), Some(s("gone"))));
    assert_eq!(r.finalize(), Err(RegistryError::Conflict(s("A"))));
}
