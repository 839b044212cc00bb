use juniper::executor::{ExecuteError, MutationRun, Resolved, RootNode, Selection};
use juniper::registry::{build_object_type, BuiltinScalar, Field, MetaType, Registry, TypeRef};
use juniper::value::{ScalarValue, Value};

fn s(x: &str) -> String {
    x.to_string()
}

fn schema() -> RootNode {
    let mut registry = Registry::new();
    registry.register(MetaType::Scalar { name: s("Int"), kind: BuiltinScalar::Int });
    registry.register(build_object_type(s("Query"), vec![]));
    registry.register(build_object_type(
        s("Mutation"),
        vec![
            Field { name: s("first"), ty: TypeRef::Named(s("Int")), arguments: vec![], deprecation: None },
            Field { name: s("second"), ty: TypeRef::Named(s("Int")), arguments: vec![], deprecation: None },
            Field { name: s("third"), ty: TypeRef::Named(s("Int")), arguments: vec![], deprecation: None },
        ],
    ));
    RootNode { registry, query_type: s("Query"), mutation_type: Some(s("Mutation")), subscription_type: None }
}

fn leaf(name: &str) -> Selection {
    Selection { name: s(name), arguments: vec![], selections: vec![] }
}

fn run_with_counter(schema: &RootNode, sels: &Vec<Selection>) -> (Vec<String>, Result<(Value, Vec<juniper::value::ExecutionError>), ExecuteError>) {
    let mut counter = 0;
    let mut order = Vec::new();
    let mut run = MutationRun::start(schema, &vec![], sels).unwrap();
    while let Some(i) = run.next_field(sels) {
        counter += 1;
        order.push(sels[i].name.clone());
        run = run.step(schema, &vec![], sels, Resolved::Leaf(ScalarValue::Int(counter)));
    }
    (order, run.finish(schema, &vec![], sels))
}

#[test]
fn mutation_fields_resolve_in_selection_order() {
    let schema = schema();
    let sels = vec![leaf("third"), leaf("first"), leaf("second")];
    let (order, result) = run_with_counter(&schema, &sels);
    assert_eq!(order, vec![s("third"), s("first"), s("second")]);
    assert_eq!(
        result,
        Ok((
            Value::Object(vec![
                (s("third"), Value::Scalar(ScalarValue::Int(1))),
                (s("first"), Value::Scalar(ScalarValue::Int(2))),
                (s("second"), Value::Scalar(ScalarValue::Int(3))),
            ]),
            vec![]
        ))
    );
    let again = run_with_counter(&schema, &sels);
    assert_eq!(again, (order, result));
}

#[test]
fn mutation_stops_on_unknown_field() {
    let schema = schema();
    let sels = vec![leaf("first"), leaf("missing"), leaf("second")];
    let (order, result) = run_with_counter(&schema, &sels);
    assert_eq!(order, vec![s("first"), s("missing")]);
    assert_eq!(result, Err(ExecuteError::SchemaMismatch));
}

#[test]
fn mutation_needs_a_root_type() {
    let mut schema = schema();
    schema.mutation_type = None;
    assert!(matches!(MutationRun::start(&schema, &vec![], &vec![]), Err(ExecuteError::NoRootType)));
    schema.mutation_type = Some(s("Nope"));
    assert!(matches!(MutationRun::start(&schema, &vec![], &vec![]), Err(ExecuteError::SchemaMismatch)));
}
