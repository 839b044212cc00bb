use vstd::prelude::*;
use crate::coercion::{coerce_arguments, coerced, InputValue};
use crate::registry::{
    find_field, find_field_from, find_type, find_type_from, lemma_find_type_result, BuiltinScalar, Field, MetaType, Registry, TypeRef,
};
use crate::value::{
    entries_view, errors_view, extend_path, items_view, lemma_entries_view_prefix,
    lemma_items_view_prefix, path_view, copy_path, copy_scalar, ErrorView,
    ExecutionError, PathStep, ScalarValue, StepView, Value, ValueView,
};

verus! {

/// What the resolvers produced for a value: a failure with its message, or
/// data. An object carries its concrete type name and, for each field that
/// was resolved, what its resolver produced.
#[derive(Debug, PartialEq, Eq)]
pub enum Resolved {
    Failed(String),
    Null,
    Leaf(ScalarValue),
    List(Vec<Resolved>),
    Object { concrete: String, fields: Vec<(String, Resolved)> },
}

/// One selected field, the arguments the operation gives it, and the
/// selections made below it.
#[derive(Debug, PartialEq, Eq)]
pub struct Selection {
    pub name: String,
    pub arguments: Vec<(String, InputValue)>,
    pub selections: Vec<Selection>,
}

/// How completing a value ended: with a value; with null because of an error
/// that was already recorded (which a non-null position passes upward); or
/// on a defect of the schema or the selection.
pub enum Completion {
    Value(ValueView),
    Nulled,
    Fatal,
}

pub open spec fn error_at(path: Seq<StepView>, message: Seq<char>) -> ErrorView {
    ErrorView { path, message }
}

pub open spec fn msg_non_null() -> Seq<char> {
    "Cannot return null for non-nullable field"@
}

pub open spec fn msg_wrong_kind() -> Seq<char> {
    "Resolved value does not fit the declared type"@
}

pub open spec fn msg_bad_arguments() -> Seq<char> {
    "Arguments could not be coerced to their declared types"@
}

pub open spec fn msg_unresolved() -> Seq<char> {
    "No value was resolved for this field"@
}

pub open spec fn type_depth(ty: TypeRef) -> nat
    decreases ty,
{
    match ty {
        TypeRef::Named(_) => 1,
        TypeRef::List(inner) => 1 + type_depth(*inner),
        TypeRef::NonNull(inner) => 1 + type_depth(*inner),
    }
}

/// Whether a leaf fits a built-in scalar type.
pub open spec fn scalar_fits(kind: BuiltinScalar, s: ScalarValue) -> bool {
    match (kind, s) {
        (BuiltinScalar::Int, ScalarValue::Int(_)) => true,
        (BuiltinScalar::String, ScalarValue::String(_)) => true,
        (BuiltinScalar::Id, ScalarValue::String(_)) => true,
        (BuiltinScalar::Boolean, ScalarValue::Boolean(_)) => true,
        _ => false,
    }
}

pub open spec fn has_name(names: Seq<String>, name: Seq<char>) -> bool {
    exists|i: int| 0 <= i < names.len() && #[trigger] names[i]@ == name
}

/// The index of the first entry at or after `i` whose key is `key`, or -1.
pub open spec fn find_entry_from(entries: Seq<(String, Resolved)>, key: Seq<char>, i: int) -> int
    decreases entries.len() - i,
{
    if i < 0 || i >= entries.len() {
        -1
    } else if entries[i].0@ == key {
        i
    } else {
        find_entry_from(entries, key, i + 1)
    }
}

/// The fields that the concrete type of an object datum declares, if the
/// declared type `t` may hold it.
pub open spec fn object_fields(types: Seq<MetaType>, t: MetaType, concrete: Seq<char>) -> Option<
    Seq<Field>,
> {
    let j = find_type_from(types, concrete, 0);
    match t {
        MetaType::Object { fields, .. } => Some(fields@),
        MetaType::Interface { possible_types, .. } => if j >= 0 && types[j] is Object && has_name(
            possible_types@,
            concrete,
        ) {
            Some(types[j]->Object_fields@)
        } else {
            None
        },
        MetaType::Union { possible_types, .. } => if j >= 0 && types[j] is Object && has_name(
            possible_types@,
            concrete,
        ) {
            Some(types[j]->Object_fields@)
        } else {
            None
        },
        _ => None,
    }
}

/// Completes `data` against the declared type `ty`, at `path`, with `sels`
/// selected below it. Gives the completion and the errors recorded, in
/// traversal order.
pub open spec fn complete(
    types: Seq<MetaType>,
    vars: Seq<(String, Value)>,
    ty: TypeRef,
    data: Resolved,
    sels: Seq<Selection>,
    path: Seq<StepView>,
) -> (Completion, Seq<ErrorView>)
    decreases data, type_depth(ty), 0int,
{
    match data {
        Resolved::Failed(msg) => (Completion::Nulled, seq![error_at(path, msg@)]),
        _ => match ty {
            TypeRef::NonNull(inner) => {
                let (c, e) = complete(types, vars, *inner, data, sels, path);
                match c {
                    Completion::Value(ValueView::Null) => (
                        Completion::Nulled,
                        e.push(error_at(path, msg_non_null())),
                    ),
                    _ => (c, e),
                }
            },
            TypeRef::List(inner) => match data {
                Resolved::Null => (Completion::Value(ValueView::Null), Seq::empty()),
                Resolved::List(items) => complete_items(
                    types,
                    vars,
                    *inner,
                    data,
                    sels,
                    path,
                    items@.len() as int,
                ),
                _ => (Completion::Nulled, seq![error_at(path, msg_wrong_kind())]),
            },
            TypeRef::Named(n) => {
                let k = find_type_from(types, n@, 0);
                if k < 0 || k >= types.len() {
                    (Completion::Fatal, Seq::empty())
                } else {
                    let t = types[k];
                    match data {
                        Resolved::Null => (Completion::Value(ValueView::Null), Seq::empty()),
                        Resolved::Leaf(s) => match t {
                            MetaType::Scalar { kind, .. } => if scalar_fits(kind, s) {
                                (Completion::Value(ValueView::Scalar(s@)), Seq::empty())
                            } else {
                                (Completion::Nulled, seq![error_at(path, msg_wrong_kind())])
                            },
                            MetaType::Enum { values, .. } => if s is String && has_name(
                                values@,
                                s->String_0@,
                            ) {
                                (Completion::Value(ValueView::Scalar(s@)), Seq::empty())
                            } else {
                                (Completion::Nulled, seq![error_at(path, msg_wrong_kind())])
                            },
                            MetaType::Object { .. } | MetaType::Interface { .. }
                            | MetaType::Union { .. } => (
                                Completion::Nulled,
                                seq![error_at(path, msg_wrong_kind())],
                            ),
                            _ => (Completion::Fatal, Seq::empty()),
                        },
                        Resolved::Object { concrete, .. } => match t {
                            MetaType::Scalar { .. } | MetaType::Enum { .. } => (
                                Completion::Nulled,
                                seq![error_at(path, msg_wrong_kind())],
                            ),
                            MetaType::Object { .. } | MetaType::Interface { .. }
                            | MetaType::Union { .. } => match object_fields(types, t, concrete@) {
                                Some(fs) => complete_fields(
                                    types,
                                    vars,
                                    fs,
                                    data,
                                    sels,
                                    path,
                                    sels.len() as int,
                                ),
                                None => (Completion::Nulled, seq![error_at(path, msg_wrong_kind())]),
                            },
                            _ => (Completion::Fatal, Seq::empty()),
                        },
                        _ => match t {
                            MetaType::InputObject { .. } | MetaType::Placeholder { .. } => (
                                Completion::Fatal,
                                Seq::empty(),
                            ),
                            _ => (Completion::Nulled, seq![error_at(path, msg_wrong_kind())]),
                        },
                    }
                }
            },
        },
    }
}

/// Completes the first `i` items of the list `data` against `inner`.
pub open spec fn complete_items(
    types: Seq<MetaType>,
    vars: Seq<(String, Value)>,
    inner: TypeRef,
    data: Resolved,
    sels: Seq<Selection>,
    path: Seq<StepView>,
    i: int,
) -> (Completion, Seq<ErrorView>)
    decreases data, 0int, i,
{
    if i <= 0 || !(data is List) || i > data->List_0@.len() {
        (Completion::Value(ValueView::List(Seq::empty())), Seq::empty())
    } else {
        let (prev, e1) = complete_items(types, vars, inner, data, sels, path, i - 1);
        match prev {
            Completion::Fatal => (Completion::Fatal, e1),
            _ => {
                let item = data->List_0@[i - 1];
                let (c, e2) = complete(
                    types,
                    vars,
                    inner,
                    item,
                    sels,
                    path.push(StepView::Index((i - 1) as nat)),
                );
                match c {
                    Completion::Fatal => (Completion::Fatal, e1 + e2),
                    Completion::Nulled => if inner is NonNull {
                        (Completion::Nulled, e1 + e2)
                    } else {
                        (append_item(prev, ValueView::Null), e1 + e2)
                    },
                    Completion::Value(v) => (append_item(prev, v), e1 + e2),
                }
            },
        }
    }
}

pub open spec fn append_item(prev: Completion, v: ValueView) -> Completion {
    match prev {
        Completion::Value(ValueView::List(s)) => Completion::Value(ValueView::List(s.push(v))),
        _ => prev,
    }
}

pub open spec fn append_entry(prev: Completion, key: Seq<char>, v: ValueView) -> Completion {
    match prev {
        Completion::Value(ValueView::Object(s)) => Completion::Value(
            ValueView::Object(s.push((key, v))),
        ),
        _ => prev,
    }
}

/// The entry that the selection `sel` contributes to the object `data`,
/// whose type declares `decl`: `Value(v)` for a value (null where a nullable
/// field failed), `Nulled` where a non-null field failed, `Fatal` where the
/// type declares no such field or the schema is broken below it.
pub open spec fn field_entry(
    types: Seq<MetaType>,
    vars: Seq<(String, Value)>,
    decl: Seq<Field>,
    data: Resolved,
    sel: Selection,
    path: Seq<StepView>,
) -> (Completion, Seq<ErrorView>)
    decreases data, 0int, 0int,
{
    let f = find_field_from(decl, sel.name@, 0);
    if f < 0 || f >= decl.len() || !(data is Object) {
        (Completion::Fatal, Seq::empty())
    } else {
        let fty = decl[f].ty;
        let fpath = path.push(StepView::Field(sel.name@));
        let entries = data->Object_fields@;
        let k = find_entry_from(entries, sel.name@, 0);
        let args = coerced(
            types,
            decl[f].arguments@,
            sel.arguments@,
            vars,
            decl[f].arguments@.len() as int,
        );
        let (c, e) = if args is Err {
            (Completion::Nulled, seq![error_at(fpath, msg_bad_arguments())])
        } else if k < 0 || k >= entries.len() {
            (Completion::Nulled, seq![error_at(fpath, msg_unresolved())])
        } else {
            complete(types, vars, fty, entries[k].1, sel.selections@, fpath)
        };
        match c {
            Completion::Nulled => if fty is NonNull {
                (Completion::Nulled, e)
            } else {
                (Completion::Value(ValueView::Null), e)
            },
            _ => (c, e),
        }
    }
}

/// Completes the first `i` selections on the object `data`, whose type
/// declares `decl`.
pub open spec fn complete_fields(
    types: Seq<MetaType>,
    vars: Seq<(String, Value)>,
    decl: Seq<Field>,
    data: Resolved,
    sels: Seq<Selection>,
    path: Seq<StepView>,
    i: int,
) -> (Completion, Seq<ErrorView>)
    decreases data, 0int, i,
{
    if i <= 0 || !(data is Object) || i > sels.len() {
        (Completion::Value(ValueView::Object(Seq::empty())), Seq::empty())
    } else {
        let (prev, e1) = complete_fields(types, vars, decl, data, sels, path, i - 1);
        match prev {
            Completion::Fatal => (Completion::Fatal, e1),
            _ => {
                let (c, e2) = field_entry(types, vars, decl, data, sels[i - 1], path);
                match c {
                    Completion::Fatal => (Completion::Fatal, e1 + e2),
                    Completion::Nulled => (Completion::Nulled, e1 + e2),
                    Completion::Value(v) => (append_entry(prev, sels[i - 1].name@, v), e1 + e2),
                }
            },
        }
    }
}

/// How completing a value ended, as it is computed.
pub enum Outcome {
    Value(Value),
    Nulled,
    Fatal,
}

impl View for Outcome {
    type V = Completion;

    open spec fn view(&self) -> Completion {
        match self {
            Outcome::Value(v) => Completion::Value(v@),
            Outcome::Nulled => Completion::Nulled,
            Outcome::Fatal => Completion::Fatal,
        }
    }
}

fn record(errors: &mut Vec<ExecutionError>, path: &Vec<PathStep>, message: String)
    ensures
        errors_view(final(errors)@) == errors_view(old(errors)@).push(
            error_at(path_view(path@), message@),
        ),
{
    errors.push(ExecutionError { path: copy_path(path), message });
    assert(errors_view(errors@) =~= errors_view(old(errors)@).push(
        error_at(path_view(path@), message@),
    ));
}

fn is_non_null(ty: &TypeRef) -> (r: bool)
    ensures
        r == (*ty is NonNull),
{
    match ty {
        TypeRef::NonNull(_) => true,
        _ => false,
    }
}

fn has_name_in(names: &Vec<String>, name: &String) -> (r: bool)
    ensures
        r == has_name(names@, name@),
{
    let mut i: usize = 0;
    while i < names.len()
        invariant
            i <= names@.len(),
            forall|j: int| 0 <= j < i ==> #[trigger] names@[j]@ != name@,
        decreases names@.len() - i,
    {
        if names[i].eq(name) {
            return true;
        }
        i = i + 1;
    }
    false
}

fn find_entry(entries: &Vec<(String, Resolved)>, key: &String) -> (r: Option<usize>)
    ensures
        match r {
            Some(i) => i as int == find_entry_from(entries@, key@, 0) && i < entries@.len(),
            None => find_entry_from(entries@, key@, 0) < 0 || find_entry_from(entries@, key@, 0)
                >= entries@.len(),
        },
{
    let mut i: usize = 0;
    while i < entries.len()
        invariant
            i <= entries@.len(),
            find_entry_from(entries@, key@, 0) == find_entry_from(entries@, key@, i as int),
        decreases entries@.len() - i,
    {
        if entries[i].0.eq(key) {
            return Some(i);
        }
        i = i + 1;
    }
    None
}

fn object_fields_of<'a>(types: &'a Vec<MetaType>, t: &'a MetaType, concrete: &String) -> (r: Option<
    &'a Vec<Field>,
>)
    ensures
        match r {
            Some(f) => object_fields(types@, *t, concrete@) == Some(f@),
            None => object_fields(types@, *t, concrete@) is None,
        },
{
    match t {
        MetaType::Object { fields, .. } => Some(fields),
        MetaType::Interface { possible_types, .. } => match find_type(types, concrete) {
            Some(j) => match &types[j] {
                MetaType::Object { fields, .. } => if has_name_in(possible_types, concrete) {
                    Some(fields)
                } else {
                    None
                },
                _ => None,
            },
            None => None,
        },
        MetaType::Union { possible_types, .. } => match find_type(types, concrete) {
            Some(j) => match &types[j] {
                MetaType::Object { fields, .. } => if has_name_in(possible_types, concrete) {
                    Some(fields)
                } else {
                    None
                },
                _ => None,
            },
            None => None,
        },
        _ => None,
    }
}

fn fits_scalar(kind: BuiltinScalar, s: &ScalarValue) -> (r: bool)
    ensures
        r == scalar_fits(kind, *s),
{
    match (kind, s) {
        (BuiltinScalar::Int, ScalarValue::Int(_)) => true,
        (BuiltinScalar::String, ScalarValue::String(_)) => true,
        (BuiltinScalar::Id, ScalarValue::String(_)) => true,
        (BuiltinScalar::Boolean, ScalarValue::Boolean(_)) => true,
        _ => false,
    }
}

/// Completes `data` against the declared type `ty` at `path`, appending the
/// errors it records to `errors`.
pub fn complete_value(
    types: &Vec<MetaType>,
    variables: &Vec<(String, Value)>,
    ty: &TypeRef,
    data: &Resolved,
    sels: &Vec<Selection>,
    path: &Vec<PathStep>,
    errors: &mut Vec<ExecutionError>,
) -> (r: Outcome)
    ensures
        r@ == complete(types@, variables@, *ty, *data, sels@, path_view(path@)).0,
        errors_view(final(errors)@) == errors_view(old(errors)@) + complete(
            types@,
            variables@,
            *ty,
            *data,
            sels@,
            path_view(path@),
        ).1,
    decreases *data, type_depth(*ty), 0int,
{
    let ghost pv = path_view(path@);
    let ghost old_errs = errors_view(errors@);
    match data {
        Resolved::Failed(msg) => {
            record(errors, path, msg.clone());
            assert(errors_view(errors@) =~= old_errs + seq![error_at(pv, msg@)]);
            return Outcome::Nulled;
        },
        _ => {},
    }
    match ty {
        TypeRef::NonNull(inner) => {
            let c = complete_value(types, variables, inner, data, sels, path, errors);
            match c {
                Outcome::Value(Value::Null) => {
                    record(errors, path, "Cannot return null for non-nullable field".to_owned());
                    proof {
                        let e = complete(types@, variables@, **inner, *data, sels@, pv).1;
                        assert(errors_view(errors@) =~= old_errs + e.push(
                            error_at(pv, msg_non_null()),
                        ));
                    }
                    Outcome::Nulled
                },
                _ => c,
            }
        },
        TypeRef::List(inner) => match data {
            Resolved::Null => {
                assert(errors_view(errors@) =~= old_errs + Seq::<ErrorView>::empty());
                Outcome::Value(Value::Null)
            },
            Resolved::List(_) => complete_list(types, variables, inner, data, sels, path, errors),
            _ => {
                record(errors, path, "Resolved value does not fit the declared type".to_owned());
                assert(errors_view(errors@) =~= old_errs + seq![error_at(pv, msg_wrong_kind())]);
                Outcome::Nulled
            },
        },
        TypeRef::Named(n) => {
            let k = match find_type(types, n) {
                Some(k) => k,
                None => {
                    assert(errors_view(errors@) =~= old_errs + Seq::<ErrorView>::empty());
                    return Outcome::Fatal;
                },
            };
            let t = &types[k];
            let r = match data {
                Resolved::Null => Some(Outcome::Value(Value::Null)),
                Resolved::Leaf(s) => match t {
                    MetaType::Scalar { kind, .. } => if fits_scalar(*kind, s) {
                        Some(Outcome::Value(Value::Scalar(copy_scalar(s))))
                    } else {
                        None
                    },
                    MetaType::Enum { values, .. } => match s {
                        ScalarValue::String(v) => if has_name_in(values, v) {
                            Some(Outcome::Value(Value::Scalar(copy_scalar(s))))
                        } else {
                            None
                        },
                        _ => None,
                    },
                    MetaType::Object { .. } | MetaType::Interface { .. }
                    | MetaType::Union { .. } => None,
                    _ => Some(Outcome::Fatal),
                },
                Resolved::Object { concrete, .. } => match t {
                    MetaType::Scalar { .. } | MetaType::Enum { .. } => None,
                    MetaType::Object { .. } | MetaType::Interface { .. }
                    | MetaType::Union { .. } => match object_fields_of(types, t, concrete) {
                        Some(fs) => {
                            return complete_object(types, variables, fs, data, sels, path, errors);
                        },
                        None => None,
                    },
                    _ => Some(Outcome::Fatal),
                },
                _ => match t {
                    MetaType::InputObject { .. } | MetaType::Placeholder { .. } => Some(
                        Outcome::Fatal,
                    ),
                    _ => None,
                },
            };
            match r {
                Some(o) => {
                    assert(errors_view(errors@) =~= old_errs + Seq::<ErrorView>::empty());
                    o
                },
                None => {
                    record(
                        errors,
                        path,
                        "Resolved value does not fit the declared type".to_owned(),
                    );
                    assert(errors_view(errors@) =~= old_errs + seq![
                        error_at(pv, msg_wrong_kind()),
                    ]);
                    Outcome::Nulled
                },
            }
        },
    }
}

/// Completes each item of the list `data` against `inner`.
fn complete_list(
    types: &Vec<MetaType>,
    variables: &Vec<(String, Value)>,
    inner: &TypeRef,
    data: &Resolved,
    sels: &Vec<Selection>,
    path: &Vec<PathStep>,
    errors: &mut Vec<ExecutionError>,
) -> (r: Outcome)
    requires
        *data is List,
    ensures
        r@ == complete_items(
            types@,
            variables@,
            *inner,
            *data,
            sels@,
            path_view(path@),
            data->List_0@.len() as int,
        ).0,
        errors_view(final(errors)@) == errors_view(old(errors)@) + complete_items(
            types@,
            variables@,
            *inner,
            *data,
            sels@,
            path_view(path@),
            data->List_0@.len() as int,
        ).1,
    decreases *data, 0nat, 0int,
{
    let ghost pv = path_view(path@);
    let ghost old_errs = errors_view(errors@);
    let items = match data {
        Resolved::List(items) => items,
        _ => {
            return Outcome::Fatal;
        },
    };
    let inner_non_null = is_non_null(inner);
    let mut out: Vec<Value> = Vec::new();
    let mut nulled = false;
    let mut fatal = false;
    let mut i: usize = 0;
    assert(errors_view(errors@) =~= old_errs + Seq::<ErrorView>::empty());
    while i < items.len()
        invariant
            *data == Resolved::List(*items),
            i <= items@.len(),
            pv == path_view(path@),
            inner_non_null == (*inner is NonNull),
            errors_view(errors@) == old_errs + complete_items(
                types@,
                variables@,
                *inner,
                *data,
                sels@,
                pv,
                i as int,
            ).1,
            complete_items(types@, variables@, *inner, *data, sels@, pv, i as int).0 == (if fatal {
                Completion::Fatal
            } else if nulled {
                Completion::Nulled
            } else {
                Completion::Value(ValueView::List(items_view(out@, out@.len() as int)))
            }),
        decreases items@.len() - i,
    {
        let ghost prev_out = out@;
        if !fatal {
            let ipath = extend_path(path, PathStep::Index(i));
            let c = complete_value(types, variables, inner, &items[i], sels, &ipath, errors);
            match c {
                Outcome::Fatal => {
                    fatal = true;
                },
                Outcome::Nulled => {
                    if inner_non_null {
                        nulled = true;
                    } else if !nulled {
                        out.push(Value::Null);
                    }
                },
                Outcome::Value(v) => {
                    if !nulled {
                        out.push(v);
                    }
                },
            }
            proof {
                let e1 = complete_items(types@, variables@, *inner, *data, sels@, pv, i as int).1;
                let e2 = complete(
                    types@,
                    variables@,
                    *inner,
                    items@[i as int],
                    sels@,
                    pv.push(StepView::Index(i as nat)),
                ).1;
                assert(errors_view(errors@) =~= old_errs + (e1 + e2));
                if out@.len() > prev_out.len() {
                    lemma_items_view_prefix(prev_out, out@, prev_out.len() as int);
                    assert(items_view(out@, out@.len() as int) == items_view(prev_out, prev_out.len() as int).push(out@.last()@));
                } else {
                    assert(out@ == prev_out);
                }
            }
        }
        i = i + 1;
    }
    if fatal {
        Outcome::Fatal
    } else if nulled {
        Outcome::Nulled
    } else {
        Outcome::Value(Value::List(out))
    }
}

/// Completes the field that `sel` selects on the object `data`, whose type
/// declares `decl`.
fn field_value(
    types: &Vec<MetaType>,
    variables: &Vec<(String, Value)>,
    decl: &Vec<Field>,
    data: &Resolved,
    sel: &Selection,
    path: &Vec<PathStep>,
    errors: &mut Vec<ExecutionError>,
) -> (r: Outcome)
    ensures
        r@ == field_entry(types@, variables@, decl@, *data, *sel, path_view(path@)).0,
        errors_view(final(errors)@) == errors_view(old(errors)@) + field_entry(
            types@,
            variables@,
            decl@,
            *data,
            *sel,
            path_view(path@),
        ).1,
    decreases *data, 0nat, 0int,
{
    let ghost pv = path_view(path@);
    let ghost old_errs = errors_view(errors@);
    let entries = match data {
        Resolved::Object { fields, .. } => fields,
        _ => {
            assert(errors_view(errors@) =~= old_errs + Seq::<ErrorView>::empty());
            return Outcome::Fatal;
        },
    };
    let f = match find_field(decl, &sel.name) {
        None => {
            assert(errors_view(errors@) =~= old_errs + Seq::<ErrorView>::empty());
            return Outcome::Fatal;
        },
        Some(f) => f,
    };
    let fty = &decl[f].ty;
    let fpath = extend_path(path, PathStep::Field(sel.name.clone()));
    let ghost fpv = path_view(fpath@);
    if coerce_arguments(types, &decl[f].arguments, &sel.arguments, variables).is_err() {
        record(
            errors,
            &fpath,
            "Arguments could not be coerced to their declared types".to_owned(),
        );
        assert(errors_view(errors@) =~= old_errs + seq![error_at(fpv, msg_bad_arguments())]);
        return if is_non_null(fty) {
            Outcome::Nulled
        } else {
            Outcome::Value(Value::Null)
        };
    }
    let c = match find_entry(entries, &sel.name) {
        None => {
            record(errors, &fpath, "No value was resolved for this field".to_owned());
            assert(errors_view(errors@) =~= old_errs + seq![error_at(fpv, msg_unresolved())]);
            Outcome::Nulled
        },
        Some(k) => complete_value(types, variables, fty, &entries[k].1, &sel.selections, &fpath, errors),
    };
    match c {
        Outcome::Nulled => if is_non_null(fty) {
            Outcome::Nulled
        } else {
            Outcome::Value(Value::Null)
        },
        _ => c,
    }
}

/// Completes the selections `sels` on the object `data`, whose type declares
/// `decl`.
fn complete_object(
    types: &Vec<MetaType>,
    variables: &Vec<(String, Value)>,
    decl: &Vec<Field>,
    data: &Resolved,
    sels: &Vec<Selection>,
    path: &Vec<PathStep>,
    errors: &mut Vec<ExecutionError>,
) -> (r: Outcome)
    requires
        *data is Object,
    ensures
        r@ == complete_fields(types@, variables@, decl@, *data, sels@, path_view(path@), sels@.len() as int).0,
        errors_view(final(errors)@) == errors_view(old(errors)@) + complete_fields(
            types@,
            variables@,
            decl@,
            *data,
            sels@,
            path_view(path@),
            sels@.len() as int,
        ).1,
    decreases *data, 0nat, 1int,
{
    let ghost pv = path_view(path@);
    let ghost old_errs = errors_view(errors@);
    let entries = match data {
        Resolved::Object { fields, .. } => fields,
        _ => {
            return Outcome::Fatal;
        },
    };
    let mut out: Vec<(String, Value)> = Vec::new();
    let mut nulled = false;
    let mut fatal = false;
    let mut i: usize = 0;
    assert(errors_view(errors@) =~= old_errs + Seq::<ErrorView>::empty());
    while i < sels.len()
        invariant
            *data is Object,
            data->Object_fields == *entries,
            i <= sels@.len(),
            pv == path_view(path@),
            errors_view(errors@) == old_errs + complete_fields(
                types@,
                variables@,
                decl@,
                *data,
                sels@,
                pv,
                i as int,
            ).1,
            complete_fields(types@, variables@, decl@, *data, sels@, pv, i as int).0 == (if fatal {
                Completion::Fatal
            } else if nulled {
                Completion::Nulled
            } else {
                Completion::Value(ValueView::Object(entries_view(out@, out@.len() as int)))
            }),
        decreases sels@.len() - i,
    {
        let ghost prev_out = out@;
        if !fatal {
            let sel = &sels[i];
            let ghost mid = errors_view(errors@);
            let c = field_value(types, variables, decl, data, sel, path, errors);
            match c {
                Outcome::Fatal => {
                    fatal = true;
                },
                Outcome::Nulled => {
                    nulled = true;
                },
                Outcome::Value(v) => {
                    if !nulled {
                        out.push((sel.name.clone(), v));
                    }
                },
            }
            proof {
                let e1 = complete_fields(types@, variables@, decl@, *data, sels@, pv, i as int).1;
                let e2 = field_entry(types@, variables@, decl@, *data, sels@[i as int], pv).1;
                assert(errors_view(errors@) =~= old_errs + (e1 + e2));
                if out@.len() > prev_out.len() {
                    lemma_entries_view_prefix(prev_out, out@, prev_out.len() as int);
                    assert(entries_view(out@, out@.len() as int) == entries_view(
                        prev_out,
                        prev_out.len() as int,
                    ).push((out@.last().0@, out@.last().1@)));
                } else {
                    assert(out@ == prev_out);
                }
                assert(i + 1 - 1 == i);
            }
        }
        i = i + 1;
    }
    if fatal {
        Outcome::Fatal
    } else if nulled {
        Outcome::Nulled
    } else {
        Outcome::Value(Value::Object(out))
    }
}

/// A defect that stops a whole request: the selection names a field that its
/// type does not declare, a type that is not registered, or an input type in
/// an output position; or the schema has no root type for the operation.
#[derive(Clone, Copy, Debug, PartialEq, Eq, Structural)]
pub enum ExecuteError {
    SchemaMismatch,
    NoRootType,
}

/// The result of executing `sels` on `data` as a value of the root type
/// named `root`: the data and the errors in traversal order, or `None` on a
/// defect. Data is null exactly when a failure bubbled up to the root.
pub open spec fn execution(
    types: Seq<MetaType>,
    vars: Seq<(String, Value)>,
    root: String,
    data: Resolved,
    sels: Seq<Selection>,
) -> Option<(ValueView, Seq<ErrorView>)> {
    let (c, e) = complete(types, vars, TypeRef::Named(root), data, sels, Seq::empty());
    match c {
        Completion::Value(v) => Some((v, e)),
        Completion::Nulled => Some((ValueView::Null, e)),
        Completion::Fatal => None,
    }
}

/// Executes the selections `selections` on `data`, a value of the type
/// registered as `root`.
pub fn execute(
    registry: &Registry,
    root: &String,
    data: &Resolved,
    selections: &Vec<Selection>,
    variables: &Vec<(String, Value)>,
) -> (r: Result<(Value, Vec<ExecutionError>), ExecuteError>)
    ensures
        match r {
            Ok((v, e)) => execution(registry.types@, variables@, *root, *data, selections@) == Some(
                (v@, errors_view(e@)),
            ),
            Err(err) => err == ExecuteError::SchemaMismatch && execution(
                registry.types@,
                variables@,
                *root,
                *data,
                selections@,
            ) is None,
        },
{
    let ty = TypeRef::Named(root.clone());
    let mut errors: Vec<ExecutionError> = Vec::new();
    let path: Vec<PathStep> = Vec::new();
    assert(path_view(path@) =~= Seq::<StepView>::empty());
    assert(errors_view(errors@) =~= Seq::<ErrorView>::empty());
    let c = complete_value(&registry.types, variables, &ty, data, selections, &path, &mut errors);
    proof {
        let e = complete(registry.types@, variables@, ty, *data, selections@, Seq::empty()).1;
        assert(errors_view(errors@) =~= e);
    }
    match c {
        Outcome::Value(v) => Ok((v, errors)),
        Outcome::Nulled => Ok((Value::Null, errors)),
        Outcome::Fatal => Err(ExecuteError::SchemaMismatch),
    }
}

/// The kinds of operation a request may carry.
#[derive(Clone, Copy, Debug, PartialEq, Eq, Structural)]
pub enum OperationKind {
    Query,
    Mutation,
    Subscription,
}

/// A schema: its registry and the names of its root operation types.
pub struct RootNode {
    pub registry: Registry,
    pub query_type: String,
    pub mutation_type: Option<String>,
    pub subscription_type: Option<String>,
}

impl RootNode {
    /// The name of the root type for operations of `kind`, if the schema has one.
    pub open spec fn root_for(&self, kind: OperationKind) -> Option<String> {
        match kind {
            OperationKind::Query => Some(self.query_type),
            OperationKind::Mutation => self.mutation_type,
            OperationKind::Subscription => self.subscription_type,
        }
    }

    /// Executes an operation of `kind` with the selections `selections` on
    /// `data`, a value of the matching root type.
    pub fn execute_operation(
        &self,
        kind: OperationKind,
        data: &Resolved,
        selections: &Vec<Selection>,
        variables: &Vec<(String, Value)>,
    ) -> (r: Result<(Value, Vec<ExecutionError>), ExecuteError>)
        ensures
            match self.root_for(kind) {
                None => r == Err::<(Value, Vec<ExecutionError>), ExecuteError>(
                    ExecuteError::NoRootType,
                ),
                Some(root) => match r {
                    Ok((v, e)) => execution(self.registry.types@, variables@, root, *data, selections@)
                        == Some((v@, errors_view(e@))),
                    Err(err) => err == ExecuteError::SchemaMismatch && execution(
                        self.registry.types@,
                        variables@,
                        root,
                        *data,
                        selections@,
                    ) is None,
                },
            },
    {
        let root = match kind {
            OperationKind::Query => &self.query_type,
            OperationKind::Mutation => match &self.mutation_type {
                Some(m) => m,
                None => {
                    return Err(ExecuteError::NoRootType);
                },
            },
            OperationKind::Subscription => match &self.subscription_type {
                Some(s) => s,
                None => {
                    return Err(ExecuteError::NoRootType);
                },
            },
        };
        execute(&self.registry, root, data, selections, variables)
    }
}

/// The keys of an object that completes to a value are the selected field
/// names, in selection order, and each key holds what its own field
/// completed to, whatever its siblings did.
pub proof fn lemma_object_follows_selection(
    types: Seq<MetaType>,
    vars: Seq<(String, Value)>,
    decl: Seq<Field>,
    data: Resolved,
    sels: Seq<Selection>,
    path: Seq<StepView>,
    n: int,
)
    requires
        0 <= n <= sels.len(),
        data is Object,
    ensures
        match complete_fields(types, vars, decl, data, sels, path, n).0 {
            Completion::Value(ValueView::Object(es)) => es.len() == n && forall|j: int|
                0 <= j < n ==> (#[trigger] es[j]).0 == sels[j].name@ && field_entry(
                    types,
                    vars,
                    decl,
                    data,
                    sels[j],
                    path,
                ).0 == Completion::Value(es[j].1),
            Completion::Value(_) => false,
            _ => true,
        },
    decreases n,
{
    if n > 0 {
        lemma_object_follows_selection(types, vars, decl, data, sels, path, n - 1);
    }
}

/// A field whose completion failed contributes null where its declared type
/// is nullable, and passes the failure on to its object where it is
/// non-null.
pub proof fn lemma_failed_field_nullability(
    types: Seq<MetaType>,
    vars: Seq<(String, Value)>,
    decl: Seq<Field>,
    data: Resolved,
    sel: Selection,
    path: Seq<StepView>,
)
    requires
        data is Object,
        0 <= find_field_from(decl, sel.name@, 0) < decl.len(),
        0 <= find_entry_from(data->Object_fields@, sel.name@, 0) < data->Object_fields@.len(),
        complete(
            types,
            vars,
            decl[find_field_from(decl, sel.name@, 0)].ty,
            data->Object_fields@[find_entry_from(data->Object_fields@, sel.name@, 0)].1,
            sel.selections@,
            path.push(StepView::Field(sel.name@)),
        ).0 is Nulled,
    ensures
        field_entry(types, vars, decl, data, sel, path).0 == (if decl[find_field_from(
            decl,
            sel.name@,
            0,
        )].ty is NonNull {
            Completion::Nulled
        } else {
            Completion::Value(ValueView::Null)
        }),
{
}

/// When a selected non-null field fails and no selection hits a defect, the
/// failure nulls the whole object, which passes it on to the nearest
/// nullable position above.
pub proof fn lemma_non_null_failure_nulls_object(
    types: Seq<MetaType>,
    vars: Seq<(String, Value)>,
    decl: Seq<Field>,
    data: Resolved,
    sels: Seq<Selection>,
    path: Seq<StepView>,
    j: int,
    n: int,
)
    requires
        0 <= j < n <= sels.len(),
        data is Object,
        field_entry(types, vars, decl, data, sels[j], path).0 is Nulled,
        forall|m: int|
            0 <= m < n ==> !(#[trigger] field_entry(types, vars, decl, data, sels[m], path).0 is Fatal),
    ensures
        complete_fields(types, vars, decl, data, sels, path, n).0 is Nulled,
    decreases n,
{
    lemma_fields_not_fatal(types, vars, decl, data, sels, path, n - 1);
    assert(!(field_entry(types, vars, decl, data, sels[n - 1], path).0 is Fatal));
    if j < n - 1 {
        lemma_non_null_failure_nulls_object(types, vars, decl, data, sels, path, j, n - 1);
    }
}

proof fn lemma_fields_not_fatal(
    types: Seq<MetaType>,
    vars: Seq<(String, Value)>,
    decl: Seq<Field>,
    data: Resolved,
    sels: Seq<Selection>,
    path: Seq<StepView>,
    n: int,
)
    requires
        0 <= n <= sels.len(),
        data is Object,
        forall|m: int|
            0 <= m < n ==> !(#[trigger] field_entry(types, vars, decl, data, sels[m], path).0 is Fatal),
    ensures
        !(complete_fields(types, vars, decl, data, sels, path, n).0 is Fatal),
    decreases n,
{
    if n > 0 {
        lemma_fields_not_fatal(types, vars, decl, data, sels, path, n - 1);
        assert(!(field_entry(types, vars, decl, data, sels[n - 1], path).0 is Fatal));
    }
}

/// A failure that bubbles up to the root leaves the response's data null,
/// with the errors that were recorded.
pub proof fn lemma_root_failure_nulls_data(
    types: Seq<MetaType>,
    vars: Seq<(String, Value)>,
    root: String,
    data: Resolved,
    sels: Seq<Selection>,
)
    requires
        complete(types, vars, TypeRef::Named(root), data, sels, Seq::empty()).0 is Nulled,
    ensures
        execution(types, vars, root, data, sels) == Some(
            (ValueView::Null, complete(types, vars, TypeRef::Named(root), data, sels, Seq::empty()).1),
        ),
{
}

/// Executing the same selections twice on the same schema and data gives
/// the same data and the same errors.
pub proof fn lemma_execution_repeatable(
    types: Seq<MetaType>,
    vars: Seq<(String, Value)>,
    root: String,
    data: Resolved,
    sels: Seq<Selection>,
    first: Option<(ValueView, Seq<ErrorView>)>,
    second: Option<(ValueView, Seq<ErrorView>)>,
)
    requires
        first == execution(types, vars, root, data, sels),
        second == execution(types, vars, root, data, sels),
    ensures
        first == second,
{
}

proof fn lemma_find_entry_push(
    entries: Seq<(String, Resolved)>,
    x: (String, Resolved),
    key: Seq<char>,
    i: int,
    at: int,
)
    requires
        0 <= i <= at < entries.len(),
        entries[at].0@ == key,
    ensures
        find_entry_from(entries.push(x), key, i) == find_entry_from(entries, key, i),
        0 <= find_entry_from(entries, key, i) <= at,
    decreases entries.len() - i,
{
    if entries[i].0@ != key {
        lemma_find_entry_push(entries, x, key, i + 1, at);
    }
}

/// Appending a resolution after the first `k` does not change how those `k`
/// selections complete, when each of them already has its resolution.
proof fn lemma_fields_stable_on_append(
    types: Seq<MetaType>,
    vars: Seq<(String, Value)>,
    decl: Seq<Field>,
    concrete: String,
    before: Vec<(String, Resolved)>,
    after: Vec<(String, Resolved)>,
    x: (String, Resolved),
    sels: Seq<Selection>,
    path: Seq<StepView>,
    k: int,
)
    requires
        0 <= k <= sels.len(),
        k <= before@.len(),
        after@ == before@.push(x),
        forall|m: int| 0 <= m < k ==> (#[trigger] before@[m]).0@ == sels[m].name@,
    ensures
        complete_fields(
            types,
            vars,
            decl,
            Resolved::Object { concrete, fields: after },
            sels,
            path,
            k,
        ) == complete_fields(types, vars, decl, Resolved::Object { concrete, fields: before }, sels, path, k),
    decreases k,
{
    if k > 0 {
        lemma_fields_stable_on_append(types, vars, decl, concrete, before, after, x, sels, path, k - 1);
        assert(before@[k - 1].0@ == sels[k - 1].name@);
        lemma_find_entry_push(before@, x, sels[k - 1].name@, 0, k - 1);
        let at = find_entry_from(before@, sels[k - 1].name@, 0);
        assert(after@[at] == before@[at]);
        assert(field_entry(types, vars, decl, Resolved::Object { concrete, fields: after }, sels[k - 1], path)
            == field_entry(types, vars, decl, Resolved::Object { concrete, fields: before }, sels[k - 1], path));
    }
}

/// A mutation in progress. Its top-level fields are resolved one at a time,
/// in selection order: the resolver of a field runs only after the field
/// before it has been completed, with its whole subtree.
pub struct MutationRun {
    pub root_index: usize,
    pub next: usize,
    pub data: Resolved,
    pub entries: Vec<(String, Value)>,
    pub nulled: bool,
    pub fatal: bool,
    pub errors: Vec<ExecutionError>,
}

/// The fields that the root type of mutations declares, where it is a
/// registered object type.
pub open spec fn mutation_root(schema: RootNode) -> Option<int> {
    match schema.mutation_type {
        Some(m) => {
            let k = find_type_from(schema.registry.types@, m@, 0);
            if 0 <= k < schema.registry.types@.len() && schema.registry.types@[k] is Object {
                Some(k)
            } else {
                None
            }
        },
        None => None,
    }
}

impl MutationRun {
    pub open spec fn decl(&self, schema: RootNode) -> Seq<Field> {
        schema.registry.types@[self.root_index as int]->Object_fields@
    }

    pub open spec fn state(&self) -> Completion {
        if self.fatal {
            Completion::Fatal
        } else if self.nulled {
            Completion::Nulled
        } else {
            Completion::Value(ValueView::Object(entries_view(self.entries@, self.entries@.len() as int)))
        }
    }

    /// The run holds the resolutions of the first `next` selected fields, in
    /// selection order, and what completing those fields gave.
    pub open spec fn wf(&self, schema: RootNode, vars: Seq<(String, Value)>, sels: Seq<Selection>) -> bool {
        &&& mutation_root(schema) == Some(self.root_index as int)
        &&& self.data is Object
        &&& self.next <= sels.len()
        &&& self.data->Object_fields@.len() == self.next
        &&& forall|m: int|
            0 <= m < self.next ==> (#[trigger] self.data->Object_fields@[m]).0@ == sels[m].name@
        &&& complete_fields(
            schema.registry.types@,
            vars,
            self.decl(schema),
            self.data,
            sels,
            Seq::empty(),
            self.next as int,
        ) == (self.state(), errors_view(self.errors@))
    }

    /// Starts a mutation on `schema`, before any field is resolved.
    pub fn start(schema: &RootNode, variables: &Vec<(String, Value)>, sels: &Vec<Selection>) -> (r: Result<
        MutationRun,
        ExecuteError,
    >)
        ensures
            match r {
                Ok(run) => run.wf(*schema, variables@, sels@) && run.next == 0,
                Err(e) => mutation_root(*schema) is None && (e == ExecuteError::NoRootType
                    <==> schema.mutation_type is None),
            },
    {
        let m = match &schema.mutation_type {
            Some(m) => m,
            None => {
                return Err(ExecuteError::NoRootType);
            },
        };
        let k = match find_type(&schema.registry.types, m) {
            Some(k) => k,
            None => {
                return Err(ExecuteError::SchemaMismatch);
            },
        };
        match &schema.registry.types[k] {
            MetaType::Object { .. } => {},
            _ => {
                return Err(ExecuteError::SchemaMismatch);
            },
        }
        let run = MutationRun {
            root_index: k,
            next: 0,
            data: Resolved::Object { concrete: m.clone(), fields: Vec::new() },
            entries: Vec::new(),
            nulled: false,
            fatal: false,
            errors: Vec::new(),
        };
        assert(errors_view(run.errors@) =~= Seq::<ErrorView>::empty());
        assert(entries_view(run.entries@, 0) =~= Seq::empty());
        Ok(run)
    }

    /// The selected field whose resolver is to run now, if any: the first
    /// one not yet resolved, unless a defect has stopped the run.
    pub fn next_field(&self, sels: &Vec<Selection>) -> (r: Option<usize>)
        ensures
            r == (if !self.fatal && self.next < sels@.len() {
                Some(self.next)
            } else {
                None::<usize>
            }),
    {
        if !self.fatal && self.next < sels.len() {
            Some(self.next)
        } else {
            None
        }
    }

    /// Takes what the resolver of the next selected field produced, and
    /// completes that field.
    pub fn step(
        self,
        schema: &RootNode,
        variables: &Vec<(String, Value)>,
        sels: &Vec<Selection>,
        resolved: Resolved,
    ) -> (r:
        MutationRun)
        requires
            self.wf(*schema, variables@, sels@),
            self.next < sels@.len(),
        ensures
            r.wf(*schema, variables@, sels@),
            r.next == self.next + 1,
            r.data->Object_fields@.len() == self.data->Object_fields@.len() + 1,
            r.data->Object_fields@.drop_last() == self.data->Object_fields@,
            r.data->Object_fields@.last().1 == resolved,
    {
        let ghost old_self = self;
        let ghost types = schema.registry.types@;
        let ghost vars = variables@;
        let ghost decl = self.decl(*schema);
        let MutationRun { root_index, next, data, mut entries, mut nulled, mut fatal, mut errors } =
            self;
        let count = sels.len();
        assert(next < count);
        let sel = &sels[next];
        let data = match data {
            Resolved::Object { concrete, mut fields } => {
                let ghost before = fields;
                fields.push((sel.name.clone(), resolved));
                proof {
                    lemma_fields_stable_on_append(
                        types,
                        vars,
                        decl,
                        concrete,
                        before,
                        fields,
                        fields@.last(),
                        sels@,
                        Seq::empty(),
                        next as int,
                    );
                }
                Resolved::Object { concrete, fields }
            },
            other => other,
        };
        let decl_fields = match &schema.registry.types[root_index] {
            MetaType::Object { fields, .. } => fields,
            _ => {
                return MutationRun { root_index, next, data, entries, nulled, fatal, errors };
            },
        };
        let ghost prev_out = entries@;
        let ghost old_errs = errors_view(errors@);
        let path: Vec<PathStep> = Vec::new();
        assert(path_view(path@) =~= Seq::<StepView>::empty());
        if !fatal {
            let c = field_value(&schema.registry.types, variables, decl_fields, &data, sel, &path, &mut errors);
            match c {
                Outcome::Fatal => {
                    fatal = true;
                },
                Outcome::Nulled => {
                    nulled = true;
                },
                Outcome::Value(v) => {
                    if !nulled {
                        entries.push((sel.name.clone(), v));
                    }
                },
            }
            proof {
                let e1 = complete_fields(types, vars, decl, data, sels@, Seq::empty(), next as int).1;
                let e2 = field_entry(types, vars, decl, data, sels@[next as int], Seq::empty()).1;
                assert(errors_view(errors@) =~= old_errs + e2);
                assert(errors_view(errors@) =~= e1 + e2);
                if entries@.len() > prev_out.len() {
                    lemma_entries_view_prefix(prev_out, entries@, prev_out.len() as int);
                    assert(entries_view(entries@, entries@.len() as int) == entries_view(
                        prev_out,
                        prev_out.len() as int,
                    ).push((entries@.last().0@, entries@.last().1@)));
                } else {
                    assert(entries@ == prev_out);
                }
                assert(next + 1 - 1 == next);
            }
        }
        let r = MutationRun { root_index, next: next + 1, data, entries, nulled, fatal, errors };
        assert(r.data->Object_fields@.drop_last() =~= old_self.data->Object_fields@);
        r
    }

    /// The response once every selected field has been resolved, or the
    /// defect that stopped the run.
    pub fn finish(
        self,
        schema: &RootNode,
        variables: &Vec<(String, Value)>,
        sels: &Vec<Selection>,
    ) -> (r: Result<
        (Value, Vec<ExecutionError>),
        ExecuteError,
    >)
        requires
            self.wf(*schema, variables@, sels@),
            self.next == sels@.len() || self.fatal,
        ensures
            self.fatal ==> r == Err::<(Value, Vec<ExecutionError>), ExecuteError>(
                ExecuteError::SchemaMismatch,
            ),
            !self.fatal ==> match r {
                Ok((v, e)) => execution(
                    schema.registry.types@,
                    variables@,
                    schema.mutation_type->Some_0,
                    self.data,
                    sels@,
                ) == Some((v@, errors_view(e@))),
                Err(_) => false,
            },
    {
        proof {
            let types = schema.registry.types@;
            let m = schema.mutation_type->Some_0;
            lemma_find_type_result(types, m@, 0);
        }
        if self.fatal {
            Err(ExecuteError::SchemaMismatch)
        } else if self.nulled {
            Ok((Value::Null, self.errors))
        } else {
            Ok((Value::Object(self.entries), self.errors))
        }
    }
}

/// A mutation run that has taken `next` steps has resolved exactly the first
/// `next` selected fields, in selection order.
pub proof fn lemma_mutation_resolves_in_order(
    run: MutationRun,
    schema: RootNode,
    vars: Seq<(String, Value)>,
    sels: Seq<Selection>,
)
    requires
        run.wf(schema, vars, sels),
    ensures
        run.data->Object_fields@.len() == run.next,
        forall|m: int|
            0 <= m < run.next ==> (#[trigger] run.data->Object_fields@[m]).0@ == sels[m].name@,
{
}

} // verus!
