use vstd::prelude::*;
use crate::executor::{has_name, type_depth};
use crate::registry::{find_type, find_type_from, Argument, MetaType, TypeRef};
use crate::scalar::accepts;
use crate::value::{
    copy_value, entries_view, items_view, lemma_entries_view_index, lemma_entries_view_prefix, lemma_items_view_index,
    ScalarValue, ScalarView, Value, ValueView,
};

verus! {

/// An argument as the operation writes it: a literal, or the name of a
/// variable.
#[derive(Debug, PartialEq, Eq)]
pub enum InputValue {
    Literal(Value),
    Variable(String),
}

/// Why the arguments of a field cannot be coerced.
#[derive(Debug, PartialEq, Eq)]
pub enum ArgumentError {
    /// This required argument was given no value.
    Missing(String),
    /// The value given for this argument does not fit its declared type.
    Invalid(String),
}

/// The first index at or after `i` whose key is `key` in an object's view,
/// or -1.
pub open spec fn find_key_from(s: Seq<(Seq<char>, ValueView)>, key: Seq<char>, i: int) -> int
    decreases s.len() - i,
{
    if i < 0 || i >= s.len() {
        -1
    } else if s[i].0 == key {
        i
    } else {
        find_key_from(s, key, i + 1)
    }
}

/// The first declaration at or after `i` named `name`, or -1.
pub open spec fn find_argument_from(decl: Seq<Argument>, name: Seq<char>, i: int) -> int
    decreases decl.len() - i,
{
    if i < 0 || i >= decl.len() {
        -1
    } else if decl[i].name@ == name {
        i
    } else {
        find_argument_from(decl, name, i + 1)
    }
}

/// Whether the input `v` fits the declared input type `ty`.
pub open spec fn fits_input(types: Seq<MetaType>, ty: TypeRef, v: ValueView) -> bool
    decreases v, type_depth(ty), 1int, 0int,
{
    match ty {
        TypeRef::NonNull(inner) => !(v is Null) && fits_input(types, *inner, v),
        TypeRef::List(inner) => match v {
            ValueView::Null => true,
            ValueView::List(s) => items_fit(types, *inner, v, s.len() as int),
            _ => false,
        },
        TypeRef::Named(n) => match v {
            ValueView::Null => true,
            _ => {
                let k = find_type_from(types, n@, 0);
                0 <= k < types.len() && match types[k] {
                    MetaType::Scalar { kind, .. } => accepts(kind, v),
                    MetaType::Enum { values, .. } => match v {
                        ValueView::Scalar(ScalarView::String(s)) => has_name(values@, s),
                        _ => false,
                    },
                    MetaType::InputObject { input_fields, .. } => match v {
                        ValueView::Object(es) => fields_fit(
                            types,
                            input_fields@,
                            v,
                            input_fields@.len() as int,
                        ) && keys_declared(input_fields@, es),
                        _ => false,
                    },
                    _ => false,
                }
            },
        },
    }
}

/// Whether the first `n` items of the list `v` fit `inner`.
pub open spec fn items_fit(types: Seq<MetaType>, inner: TypeRef, v: ValueView, n: int) -> bool
    decreases v, 0nat, 0int, n,
{
    if n <= 0 || !(v is List) || n > v->List_0.len() {
        true
    } else {
        items_fit(types, inner, v, n - 1) && fits_input(types, inner, v->List_0[n - 1])
    }
}

/// Whether the object `v` gives each of the first `n` declared fields a
/// fitting value, and each required one some value.
pub open spec fn fields_fit(types: Seq<MetaType>, decl: Seq<Argument>, v: ValueView, n: int) -> bool
    decreases v, 0nat, 0int, n,
{
    if n <= 0 || !(v is Object) || n > decl.len() {
        true
    } else {
        let k = find_key_from(v->Object_0, decl[n - 1].name@, 0);
        fields_fit(types, decl, v, n - 1) && if 0 <= k < v->Object_0.len() {
            fits_input(types, decl[n - 1].ty, v->Object_0[k].1)
        } else {
            !(decl[n - 1].ty is NonNull)
        }
    }
}

/// Whether every key of an input object is a declared field.
pub open spec fn keys_declared(decl: Seq<Argument>, es: Seq<(Seq<char>, ValueView)>) -> bool {
    forall|j: int| 0 <= j < es.len() ==> find_argument_from(decl, (#[trigger] es[j]).0, 0) >= 0
}

fn find_argument(decl: &Vec<Argument>, name: &String) -> (r: bool)
    ensures
        r == (find_argument_from(decl@, name@, 0) >= 0),
{
    let mut i: usize = 0;
    while i < decl.len()
        invariant
            i <= decl@.len(),
            find_argument_from(decl@, name@, 0) == find_argument_from(decl@, name@, i as int),
        decreases decl@.len() - i,
    {
        if decl[i].name.eq(name) {
            return true;
        }
        i = i + 1;
    }
    false
}

fn find_key(es: &Vec<(String, Value)>, key: &String) -> (r: Option<usize>)
    ensures
        match r {
            Some(k) => k < es@.len() && k as int == find_key_from(
                entries_view(es@, es@.len() as int),
                key@,
                0,
            ),
            None => find_key_from(entries_view(es@, es@.len() as int), key@, 0) == -1,
        },
{
    let ghost n = es@.len() as int;
    let ghost view = entries_view(es@, n);
    let mut i: usize = 0;
    while i < es.len()
        invariant
            i <= es@.len(),
            n == es@.len(),
            view == entries_view(es@, n),
            find_key_from(view, key@, 0) == find_key_from(view, key@, i as int),
        decreases es@.len() - i,
    {
        proof {
            lemma_entries_view_index(es@, n, i as int);
        }
        if es[i].0.eq(key) {
            return Some(i);
        }
        i = i + 1;
    }
    proof {
        if n == 0 {
            assert(view.len() == 0);
        } else {
            lemma_entries_view_index(es@, n, 0);
        }
    }
    None
}

/// Whether the input `v` fits the declared input type `ty`.
pub fn input_fits(types: &Vec<MetaType>, ty: &TypeRef, v: &Value) -> (r: bool)
    ensures
        r == fits_input(types@, *ty, v@),
    decreases *v, type_depth(*ty), 1int, 0int,
{
    match ty {
        TypeRef::NonNull(inner) => match v {
            Value::Null => false,
            _ => {
                let fits = input_fits(types, inner, v);
                assert(!(v@ is Null));
                fits
            },
        },
        TypeRef::List(inner) => match v {
            Value::Null => true,
            Value::List(items) => {
                proof {
                    if items@.len() > 0 {
                        lemma_items_view_index(items@, items@.len() as int, 0);
                    }
                }
                list_fits(types, inner, v)
            },
            _ => false,
        },
        TypeRef::Named(n) => {
            if let Value::Null = v {
                return true;
            }
            let k = match find_type(types, n) {
                Some(k) => k,
                None => {
                    return false;
                },
            };
            match &types[k] {
                MetaType::Scalar { kind, .. } => match (kind, v) {
                    (crate::registry::BuiltinScalar::Int, Value::Scalar(ScalarValue::Int(_))) => true,
                    (
                        crate::registry::BuiltinScalar::String,
                        Value::Scalar(ScalarValue::String(_)),
                    ) => true,
                    (crate::registry::BuiltinScalar::Id, Value::Scalar(ScalarValue::String(_))) => true,
                    (
                        crate::registry::BuiltinScalar::Boolean,
                        Value::Scalar(ScalarValue::Boolean(_)),
                    ) => true,
                    _ => false,
                },
                MetaType::Enum { values, .. } => match v {
                    Value::Scalar(ScalarValue::String(s)) => has_value(values, s),
                    _ => false,
                },
                MetaType::InputObject { input_fields, .. } => match v {
                    Value::Object(_) => object_fits(types, input_fields, v),
                    _ => false,
                },
                _ => false,
            }
        },
    }
}

fn has_value(names: &Vec<String>, name: &String) -> (r: bool)
    ensures
        r == has_name(names@, name@),
{
    let mut i: usize = 0;
    while i < names.len()
        invariant
            i <= names@.len(),
            forall|j: int| 0 <= j < i ==> #[trigger] names@[j]@ != name@,
        decreases names@.len() - i,
    {
        if names[i].eq(name) {
            return true;
        }
        i = i + 1;
    }
    false
}

fn list_fits(types: &Vec<MetaType>, inner: &TypeRef, v: &Value) -> (r: bool)
    requires
        *v is List,
    ensures
        r == items_fit(types@, *inner, v@, v->List_0@.len() as int),
    decreases *v, 0nat, 0int, 0int,
{
    let items = match v {
        Value::List(items) => items,
        _ => {
            return true;
        },
    };
    let ghost n = items@.len() as int;
    let mut ok = true;
    let mut i: usize = 0;
    while i < items.len()
        invariant
            *v == Value::List(*items),
            n == items@.len(),
            v@ == ValueView::List(items_view(items@, n)),
            i <= n,
            ok == items_fit(types@, *inner, v@, i as int),
        decreases items@.len() - i,
    {
        proof {
            assert(v->List_0 == *items);
            lemma_items_view_index(items@, n, i as int);
        }
        let fits = input_fits(types, inner, &items[i]);
        ok = ok && fits;
        i = i + 1;
    }
    ok
}

fn object_fits(types: &Vec<MetaType>, decl: &Vec<Argument>, v: &Value) -> (r: bool)
    requires
        *v is Object,
    ensures
        r == (fields_fit(types@, decl@, v@, decl@.len() as int) && keys_declared(
            decl@,
            v@->Object_0,
        )),
    decreases *v, 0nat, 0int, 0int,
{
    let es = match v {
        Value::Object(es) => es,
        _ => {
            return false;
        },
    };
    let ghost n = es@.len() as int;
    let ghost view = entries_view(es@, n);
    let mut ok = true;
    let mut i: usize = 0;
    while i < decl.len()
        invariant
            *v == Value::Object(*es),
            n == es@.len(),
            view == entries_view(es@, n),
            v@ == ValueView::Object(view),
            i <= decl@.len(),
            ok == fields_fit(types@, decl@, v@, i as int),
        decreases decl@.len() - i,
    {
        let fits = match find_key(es, &decl[i].name) {
            Some(k) => {
                proof {
                    assert(v->Object_0 == *es);
                    assert(v->Object_0@[k as int].1 == es@[k as int].1);
                    lemma_entries_view_index(es@, n, k as int);
                }
                input_fits(types, &decl[i].ty, &es[k].1)
            },
            None => match &decl[i].ty {
                TypeRef::NonNull(_) => false,
                _ => true,
            },
        };
        ok = ok && fits;
        i = i + 1;
    }
    let mut j: usize = 0;
    while j < es.len()
        invariant
            *v == Value::Object(*es),
            n == es@.len(),
            view == entries_view(es@, n),
            v@ == ValueView::Object(view),
            j <= n,
            ok == (fields_fit(types@, decl@, v@, decl@.len() as int) && forall|m: int|
                0 <= m < j ==> find_argument_from(decl@, (#[trigger] view[m]).0, 0) >= 0),
        decreases es@.len() - j,
    {
        proof {
            lemma_entries_view_index(es@, n, j as int);
        }
        let declared = find_argument(decl, &es[j].0);
        ok = ok && declared;
        proof {
            assert(view[j as int].0 == es@[j as int].0@);
        }
        j = j + 1;
    }
    proof {
        if n > 0 {
            lemma_entries_view_index(es@, n, 0);
        }
    }
    ok
}

/// The first entry at or after `i` whose name is `name`, or -1.
pub open spec fn find_given_from(s: Seq<(String, InputValue)>, name: Seq<char>, i: int) -> int
    decreases s.len() - i,
{
    if i < 0 || i >= s.len() {
        -1
    } else if s[i].0@ == name {
        i
    } else {
        find_given_from(s, name, i + 1)
    }
}

/// The first variable at or after `i` whose name is `name`, or -1.
pub open spec fn find_variable_from(s: Seq<(String, Value)>, name: Seq<char>, i: int) -> int
    decreases s.len() - i,
{
    if i < 0 || i >= s.len() {
        -1
    } else if s[i].0@ == name {
        i
    } else {
        find_variable_from(s, name, i + 1)
    }
}

/// The value that the operation supplies for the argument `name`: its
/// literal, or the value of the variable it names; none where the argument
/// is absent or names an undefined variable.
pub open spec fn supplied(
    given: Seq<(String, InputValue)>,
    vars: Seq<(String, Value)>,
    name: Seq<char>,
) -> Option<ValueView> {
    let k = find_given_from(given, name, 0);
    if 0 <= k < given.len() {
        match given[k].1 {
            InputValue::Literal(v) => Some(v@),
            InputValue::Variable(x) => {
                let j = find_variable_from(vars, x@, 0);
                if 0 <= j < vars.len() {
                    Some(vars[j].1@)
                } else {
                    None
                }
            },
        }
    } else {
        None
    }
}

/// Which declared argument stopped coercion, and how.
pub enum ArgumentFailure {
    Missing(int),
    Invalid(int),
}

/// Coerces the first `n` declared arguments, in declaration order: each
/// with the value supplied for it, or else its default, where that fits its
/// type; absent nullable ones without a default are left out; the first
/// absent required one without a default, or ill-typed one, fails.
pub open spec fn coerced(
    types: Seq<MetaType>,
    decls: Seq<Argument>,
    given: Seq<(String, InputValue)>,
    vars: Seq<(String, Value)>,
    n: int,
) -> Result<Seq<(Seq<char>, ValueView)>, ArgumentFailure>
    decreases n,
{
    if n <= 0 || n > decls.len() {
        Ok(Seq::empty())
    } else {
        match coerced(types, decls, given, vars, n - 1) {
            Err(f) => Err(f),
            Ok(prev) => {
                let d = decls[n - 1];
                match supplied(given, vars, d.name@) {
                    None => match d.default {
                        Some(dv) => if fits_input(types, d.ty, dv@) {
                            Ok(prev.push((d.name@, dv@)))
                        } else {
                            Err(ArgumentFailure::Invalid(n - 1))
                        },
                        None => if d.ty is NonNull {
                            Err(ArgumentFailure::Missing(n - 1))
                        } else {
                            Ok(prev)
                        },
                    },
                    Some(v) => if fits_input(types, d.ty, v) {
                        Ok(prev.push((d.name@, v)))
                    } else {
                        Err(ArgumentFailure::Invalid(n - 1))
                    },
                }
            },
        }
    }
}

proof fn lemma_coerced_failure_stays(
    types: Seq<MetaType>,
    decls: Seq<Argument>,
    given: Seq<(String, InputValue)>,
    vars: Seq<(String, Value)>,
    i: int,
    n: int,
)
    requires
        0 <= i <= n <= decls.len(),
        coerced(types, decls, given, vars, i) is Err,
    ensures
        coerced(types, decls, given, vars, n) == coerced(types, decls, given, vars, i),
    decreases n - i,
{
    if n > i {
        lemma_coerced_failure_stays(types, decls, given, vars, i, n - 1);
    }
}

fn supplied_value<'a>(
    given: &'a Vec<(String, InputValue)>,
    vars: &'a Vec<(String, Value)>,
    name: &String,
) -> (r: Option<&'a Value>)
    ensures
        match r {
            Some(v) => supplied(given@, vars@, name@) == Some(v@),
            None => supplied(given@, vars@, name@) is None,
        },
{
    let mut i: usize = 0;
    while i < given.len()
        invariant
            i <= given@.len(),
            find_given_from(given@, name@, 0) == find_given_from(given@, name@, i as int),
        decreases given@.len() - i,
    {
        if given[i].0.eq(name) {
            match &given[i].1 {
                InputValue::Literal(v) => {
                    return Some(v);
                },
                InputValue::Variable(x) => {
                    let mut j: usize = 0;
                    while j < vars.len()
                        invariant
                            i < given@.len(),
                            find_given_from(given@, name@, 0) == i as int,
                            given@[i as int].1 == InputValue::Variable(*x),
                            j <= vars@.len(),
                            find_variable_from(vars@, x@, 0) == find_variable_from(
                                vars@,
                                x@,
                                j as int,
                            ),
                        decreases vars@.len() - j,
                    {
                        if vars[j].0.eq(x) {
                            return Some(&vars[j].1);
                        }
                        j = j + 1;
                    }
                    return None;
                },
            }
        }
        i = i + 1;
    }
    None
}

/// Coerces the arguments that an operation gives a field with the declared
/// arguments `decls`, substituting variables from `variables`.
pub fn coerce_arguments(
    types: &Vec<MetaType>,
    decls: &Vec<Argument>,
    given: &Vec<(String, InputValue)>,
    variables: &Vec<(String, Value)>,
) -> (r: Result<Vec<(String, Value)>, ArgumentError>)
    ensures
        ({
            let c = coerced(types@, decls@, given@, variables@, decls@.len() as int);
            match r {
                Ok(out) => c == Ok::<Seq<(Seq<char>, ValueView)>, ArgumentFailure>(
                    entries_view(out@, out@.len() as int),
                ),
                Err(ArgumentError::Missing(name)) => c is Err && c->Err_0 is Missing && 0
                    <= c->Err_0->Missing_0 < decls@.len() && name@
                    == decls@[c->Err_0->Missing_0].name@,
                Err(ArgumentError::Invalid(name)) => c is Err && c->Err_0 is Invalid && 0
                    <= c->Err_0->Invalid_0 < decls@.len() && name@
                    == decls@[c->Err_0->Invalid_0].name@,
            }
        }),
{
    let mut out: Vec<(String, Value)> = Vec::new();
    let mut i: usize = 0;
    while i < decls.len()
        invariant
            i <= decls@.len(),
            coerced(types@, decls@, given@, variables@, i as int) == Ok::<
                Seq<(Seq<char>, ValueView)>,
                ArgumentFailure,
            >(entries_view(out@, out@.len() as int)),
        decreases decls@.len() - i,
    {
        let d = &decls[i];
        let ghost prev_out = out@;
        let chosen = match supplied_value(given, variables, &d.name) {
            Some(v) => Some(v),
            None => match &d.default {
                Some(dv) => Some(dv),
                None => None,
            },
        };
        match chosen {
            None => {
                if let TypeRef::NonNull(_) = &d.ty {
                    proof {
                        lemma_coerced_failure_stays(
                            types@,
                            decls@,
                            given@,
                            variables@,
                            i + 1,
                            decls@.len() as int,
                        );
                    }
                    return Err(ArgumentError::Missing(d.name.clone()));
                }
            },
            Some(v) => {
                if !input_fits(types, &d.ty, v) {
                    proof {
                        lemma_coerced_failure_stays(
                            types@,
                            decls@,
                            given@,
                            variables@,
                            i + 1,
                            decls@.len() as int,
                        );
                    }
                    return Err(ArgumentError::Invalid(d.name.clone()));
                }
                out.push((d.name.clone(), copy_value(v)));
                proof {
                    lemma_entries_view_prefix(prev_out, out@, prev_out.len() as int);
                }
            },
        }
        i = i + 1;
    }
    Ok(out)
}

} // verus!
