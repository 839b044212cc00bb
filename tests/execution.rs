use juniper::executor::{execute, ExecuteError, OperationKind, Resolved, RootNode, Selection};
use juniper::registry::{
    build_object_type, string_fields, BuiltinScalar, Field, MetaType, Registry, TypeRef,
};
use juniper::value::{ExecutionError, PathStep, ScalarValue, Value};

fn s(x: &str) -> String {
    x.to_string()
}

fn named(n: &str) -> TypeRef {
    TypeRef::Named(s(n))
}

fn non_null(t: TypeRef) -> TypeRef {
    TypeRef::NonNull(Box::new(t))
}

fn list(t: TypeRef) -> TypeRef {
    TypeRef::List(Box::new(t))
}

fn field(name: &str, ty: TypeRef) -> Field {
    Field { name: s(name), ty, arguments: vec![], deprecation: None }
}

fn leaf(name: &str) -> Selection {
    Selection { name: s(name), arguments: vec![], selections: vec![] }
}

fn str_value(x: &str) -> Value {
    Value::Scalar(ScalarValue::String(s(x)))
}

fn str_data(x: &str) -> Resolved {
    Resolved::Leaf(ScalarValue::String(s(x)))
}

fn object(concrete: &str, fields: Vec<(&str, Resolved)>) -> Resolved {
    Resolved::Object {
        concrete: s(concrete),
        fields: fields.into_iter().map(|(k, v)| (s(k), v)).collect(),
    }
}

fn error_at(path: Vec<&str>, message: &str) -> ExecutionError {
    ExecutionError { path: path.into_iter().map(|p| PathStep::Field(s(p))).collect(), message: s(message) }
}

fn base_registry() -> Registry {
    let mut r = Registry::new();
    r.register(MetaType::Scalar { name: s("String"), kind: BuiltinScalar::String });
    r.register(MetaType::Scalar { name: s("Int"), kind: BuiltinScalar::Int });
    r
}

#[test]
fn test_node() {
    let attribute_names = vec![s("foo"), s("bar"), s("baz")];
    let mut registry = base_registry();
    registry.register(build_object_type(s("MyNode"), string_fields(&attribute_names)));
    assert_eq!(registry.finalize(), Ok(()));
    let data = object("MyNode", vec![("foo", str_data("1")), ("bar", str_data("2")), ("baz", str_data("3"))]);
    let schema = RootNode { registry, query_type: s("MyNode"), mutation_type: None, subscription_type: None };
    let result = schema.execute_operation(OperationKind::Query, &data, &vec![leaf("foo"), leaf("bar"), leaf("baz")], &vec![]);
    assert_eq!(
        result,
        Ok((
            Value::Object(vec![
                (s("foo"), str_value("1")),
                (s("bar"), str_value("2")),
                (s("baz"), str_value("3")),
            ]),
            vec![]
        ))
    );
}

#[test]
fn keys_follow_selection_order_not_data_order() {
    let mut registry = base_registry();
    registry.register(build_object_type(
        s("Query"),
        vec![field("a", named("String")), field("b", named("String"))],
    ));
    let data = object("Query", vec![("a", str_data("x")), ("b", str_data("y"))]);
    let r = execute(&registry, &s("Query"), &data, &vec![leaf("b"), leaf("a")], &vec![]).unwrap();
    assert_eq!(r.0, Value::Object(vec![(s("b"), str_value("y")), (s("a"), str_value("x"))]));
    assert!(r.1.is_empty());
}

#[test]
fn failing_non_null_root_field_nulls_data() {
    let mut registry = base_registry();
    registry.register(build_object_type(s("Query"), vec![field("must", non_null(named("String")))]));
    let data = object("Query", vec![("must", Resolved::Failed(s("boom")))]);
    let r = execute(&registry, &s("Query"), &data, &vec![leaf("must")], &vec![]);
    assert_eq!(r, Ok((Value::Null, vec![error_at(vec!["must"], "boom")])));
}

#[test]
fn failing_nullable_field_keeps_sibling() {
    let mut registry = base_registry();
    registry.register(build_object_type(
        s("Query"),
        vec![field("failing", named("String")), field("sibling", named("String"))],
    ));
    let data = object("Query", vec![("failing", Resolved::Failed(s("down"))), ("sibling", str_data("ok"))]);
    let r = execute(&registry, &s("Query"), &data, &vec![leaf("failing"), leaf("sibling")], &vec![]);
    assert_eq!(
        r,
        Ok((
            Value::Object(vec![(s("failing"), Value::Null), (s("sibling"), str_value("ok"))]),
            vec![error_at(vec!["failing"], "down")]
        ))
    );
}

#[test]
fn non_null_failure_stops_at_nearest_nullable_ancestor() {
    let mut registry = base_registry();
    registry.register(build_object_type(
        s("Inner"),
        vec![field("req", non_null(named("String"))), field("opt", named("String"))],
    ));
    registry.register(build_object_type(
        s("Query"),
        vec![field("inner", named("Inner")), field("other", named("Int"))],
    ));
    let inner = object("Inner", vec![("req", Resolved::Failed(s("bad"))), ("opt", str_data("kept?"))]);
    let data = object("Query", vec![("inner", inner), ("other", Resolved::Leaf(ScalarValue::Int(7)))]);
    let sels = vec![
        Selection { name: s("inner"), arguments: vec![], selections: vec![leaf("req"), leaf("opt")] },
        leaf("other"),
    ];
    let r = execute(&registry, &s("Query"), &data, &sels, &vec![]);
    assert_eq!(
        r,
        Ok((
            Value::Object(vec![
                (s("inner"), Value::Null),
                (s("other"), Value::Scalar(ScalarValue::Int(7))),
            ]),
            vec![error_at(vec!["inner", "req"], "bad")]
        ))
    );
}

#[test]
fn null_for_non_null_field_is_an_error() {
    let mut registry = base_registry();
    registry.register(build_object_type(
        s("Query"),
        vec![field("must", non_null(named("String"))), field("x", named("String"))],
    ));
    let data = object("Query", vec![("must", Resolved::Null), ("x", str_data("v"))]);
    let r = execute(&registry, &s("Query"), &data, &vec![leaf("x"), leaf("must")], &vec![]);
    assert_eq!(
        r,
        Ok((Value::Null, vec![error_at(vec!["must"], "Cannot return null for non-nullable field")]))
    );
}

#[test]
fn list_items_fail_independently() {
    let mut registry = base_registry();
    registry.register(build_object_type(s("Query"), vec![field("xs", list(named("Int")))]));
    let data = object(
        "Query",
        vec![(
            "xs",
            Resolved::List(vec![
                Resolved::Leaf(ScalarValue::Int(1)),
                Resolved::Failed(s("item")),
                Resolved::Leaf(ScalarValue::Int(3)),
            ]),
        )],
    );
    let r = execute(&registry, &s("Query"), &data, &vec![leaf("xs")], &vec![]).unwrap();
    assert_eq!(
        r.0,
        Value::Object(vec![(
            s("xs"),
            Value::List(vec![
                Value::Scalar(ScalarValue::Int(1)),
                Value::Null,
                Value::Scalar(ScalarValue::Int(3)),
            ])
        )])
    );
    assert_eq!(
        r.1,
        vec![ExecutionError { path: vec![PathStep::Field(s("xs")), PathStep::Index(1)], message: s("item") }]
    );
}

#[test]
fn non_null_item_failure_nulls_the_list() {
    let mut registry = base_registry();
    registry.register(build_object_type(
        s("Query"),
        vec![field("xs", list(non_null(named("Int")))), field("y", named("Int"))],
    ));
    let data = object(
        "Query",
        vec![
            ("xs", Resolved::List(vec![Resolved::Leaf(ScalarValue::Int(1)), Resolved::Failed(s("e"))])),
            ("y", Resolved::Leaf(ScalarValue::Int(2))),
        ],
    );
    let r = execute(&registry, &s("Query"), &data, &vec![leaf("xs"), leaf("y")], &vec![]).unwrap();
    assert_eq!(
        r.0,
        Value::Object(vec![(s("xs"), Value::Null), (s("y"), Value::Scalar(ScalarValue::Int(2)))])
    );
    assert_eq!(r.1.len(), 1);
}

#[test]
fn nested_non_null_lists_bubble_through_both() {
    let mut registry = base_registry();
    registry.register(build_object_type(
        s("Query"),
        vec![field("grid", list(non_null(list(non_null(named("Int"))))))],
    ));
    let row_ok = Resolved::List(vec![Resolved::Leaf(ScalarValue::Int(1))]);
    let row_bad = Resolved::List(vec![Resolved::Null]);
    let data = object("Query", vec![("grid", Resolved::List(vec![row_ok, row_bad]))]);
    let r = execute(&registry, &s("Query"), &data, &vec![leaf("grid")], &vec![]).unwrap();
    assert_eq!(r.0, Value::Object(vec![(s("grid"), Value::Null)]));
    assert_eq!(
        r.1,
        vec![ExecutionError {
            path: vec![PathStep::Field(s("grid")), PathStep::Index(1), PathStep::Index(0)],
            message: s("Cannot return null for non-nullable field"),
        }]
    );
}

#[test]
fn unknown_field_is_a_defect() {
    let mut registry = base_registry();
    registry.register(build_object_type(s("Query"), vec![field("a", named("String"))]));
    let data = object("Query", vec![("a", str_data("x"))]);
    let r = execute(&registry, &s("Query"), &data, &vec![leaf("nope")], &vec![]);
    assert_eq!(r, Err(ExecuteError::SchemaMismatch));
}

#[test]
fn unregistered_root_is_a_defect() {
    let registry = base_registry();
    let data = object("Query", vec![]);
    assert_eq!(execute(&registry, &s("Query"), &data, &vec![], &vec![]), Err(ExecuteError::SchemaMismatch));
}

#[test]
fn missing_resolution_is_a_field_error() {
    let mut registry = base_registry();
    registry.register(build_object_type(s("Query"), vec![field("a", named("String"))]));
    let data = object("Query", vec![]);
    let r = execute(&registry, &s("Query"), &data, &vec![leaf("a")], &vec![]);
    assert_eq!(
        r,
        Ok((
            Value::Object(vec![(s("a"), Value::Null)]),
            vec![error_at(vec!["a"], "No value was resolved for this field")]
        ))
    );
}

#[test]
fn leaf_of_wrong_kind_is_a_field_error() {
    let mut registry = base_registry();
    registry.register(build_object_type(s("Query"), vec![field("n", named("Int"))]));
    let data = object("Query", vec![("n", str_data("not a number"))]);
    let r = execute(&registry, &s("Query"), &data, &vec![leaf("n")], &vec![]);
    assert_eq!(
        r,
        Ok((
            Value::Object(vec![(s("n"), Value::Null)]),
            vec![error_at(vec!["n"], "Resolved value does not fit the declared type")]
        ))
    );
}

#[test]
fn enum_values_are_checked() {
    let mut registry = base_registry();
    registry.register(MetaType::Enum { name: s("Color"), values: vec![s("RED"), s("GREEN")] });
    registry.register(build_object_type(
        s("Query"),
        vec![field("c", named("Color")), field("d", named("Color"))],
    ));
    let data = object("Query", vec![("c", str_data("RED")), ("d", str_data("BLUE"))]);
    let r = execute(&registry, &s("Query"), &data, &vec![leaf("c"), leaf("d")], &vec![]).unwrap();
    assert_eq!(r.0, Value::Object(vec![(s("c"), str_value("RED")), (s("d"), Value::Null)]));
    assert_eq!(r.1.len(), 1);
}

#[test]
fn interface_resolves_into_concrete_type() {
    let mut registry = base_registry();
    registry.register(MetaType::Interface {
        name: s("Named"),
        fields: vec![field("name", named("String"))],
        possible_types: vec![s("Dog")],
    });
    registry.register(MetaType::Object {
        name: s("Dog"),
        fields: vec![field("name", named("String")), field("barks", named("Int"))],
        interfaces: vec![s("Named")],
    });
    registry.register(build_object_type(s("Query"), vec![field("pet", named("Named")), field("other", named("Named"))]));
    let dog = object("Dog", vec![("name", str_data("Rex")), ("barks", Resolved::Leaf(ScalarValue::Int(3)))]);
    let cat = object("Cat", vec![("name", str_data("Tom"))]);
    let data = object("Query", vec![("pet", dog), ("other", cat)]);
    let sels = vec![
        Selection { name: s("pet"), arguments: vec![], selections: vec![leaf("name"), leaf("barks")] },
        Selection { name: s("other"), arguments: vec![], selections: vec![leaf("name")] },
    ];
    let r = execute(&registry, &s("Query"), &data, &sels, &vec![]).unwrap();
    assert_eq!(
        r.0,
        Value::Object(vec![
            (
                s("pet"),
                Value::Object(vec![(s("name"), str_value("Rex")), (s("barks"), Value::Scalar(ScalarValue::Int(3)))])
            ),
            (s("other"), Value::Null),
        ])
    );
    assert_eq!(r.1, vec![error_at(vec!["other"], "Resolved value does not fit the declared type")]);
}

#[test]
fn union_resolves_into_member() {
    let mut registry = base_registry();
    registry.register(build_object_type(s("Dog"), vec![field("name", named("String"))]));
    registry.register(MetaType::Union { name: s("Pet"), possible_types: vec![s("Dog")] });
    registry.register(build_object_type(s("Query"), vec![field("pet", non_null(named("Pet")))]));
    let data = object("Query", vec![("pet", object("Dog", vec![("name", str_data("Rex"))]))]);
    let sels = vec![Selection { name: s("pet"), arguments: vec![], selections: vec![leaf("name")] }];
    let r = execute(&registry, &s("Query"), &data, &sels, &vec![]).unwrap();
    assert_eq!(
        r.0,
        Value::Object(vec![(s("pet"), Value::Object(vec![(s("name"), str_value("Rex"))]))])
    );
}

#[test]
fn repeated_execution_gives_identical_results() {
    let mut registry = base_registry();
    registry.register(build_object_type(
        s("Query"),
        vec![field("a", named("String")), field("b", non_null(named("Int")))],
    ));
    let data = object("Query", vec![("a", Resolved::Failed(s("x"))), ("b", Resolved::Leaf(ScalarValue::Int(5)))]);
    let sels = vec![leaf("a"), leaf("b")];
    let first = execute(&registry, &s("Query"), &data, &sels, &vec![]);
    let second = execute(&registry, &s("Query"), &data, &sels, &vec![]);
    assert_eq!(first, second);
    assert_eq!(first.unwrap().1.len(), 1);
}

#[test]
fn missing_mutation_root_is_reported() {
    let schema = RootNode {
        registry: base_registry(),
        query_type: s("Query"),
        mutation_type: None,
        subscription_type: None,
    };
    let data = object("Mutation", vec![]);
    assert_eq!(
        schema.execute_operation(OperationKind::Mutation, &data, &vec![], &vec![]),
        Err(ExecuteError::NoRootType)
    );
}

#[test]
fn mutation_root_is_used_for_mutations() {
    let mut registry = base_registry();
    registry.register(build_object_type(s("Query"), vec![field("q", named("Int"))]));
    registry.register(build_object_type(s("Mutation"), vec![field("inc", named("Int"))]));
    let schema = RootNode {
        registry,
        query_type: s("Query"),
        mutation_type: Some(s("Mutation")),
        subscription_type: None,
    };
    let data = object("Mutation", vec![("inc", Resolved::Leaf(ScalarValue::Int(1)))]);
    let r = schema.execute_operation(OperationKind::Mutation, &data, &vec![leaf("inc")], &vec![]);
    assert_eq!(
        r,
        Ok((Value::Object(vec![(s("inc"), Value::Scalar(ScalarValue::Int(1)))]), vec![]))
    );
}
