use vstd::prelude::*;
use crate::value::{values_equal, Value, ValueView};

verus! {

/// The built-in leaf types.
#[derive(Clone, Copy, Debug, PartialEq, Eq, Structural)]
pub enum BuiltinScalar {
    Int,
    String,
    Boolean,
    Id,
}

/// A reference to a type as it is written on a field or an argument:
/// a named type, or a list or non-null wrapper around one.
#[derive(Debug, PartialEq, Eq)]
pub enum TypeRef {
    Named(String),
    List(Box<TypeRef>),
    NonNull(Box<TypeRef>),
}

/// An argument (or input field) declaration: its name, declared input type
/// and the value it takes when none is given.
#[derive(Debug, PartialEq, Eq)]
pub struct Argument {
    pub name: String,
    pub ty: TypeRef,
    pub default: Option<Value>,
}

/// A field declaration on an object or interface type.
#[derive(Debug, PartialEq, Eq)]
pub struct Field {
    pub name: String,
    pub ty: TypeRef,
    pub arguments: Vec<Argument>,
    /// Why the field is deprecated, where it is.
    pub deprecation: Option<String>,
}

/// The shape of one named schema type. `Placeholder` stands for a type whose
/// body is still being built.
#[derive(Debug, PartialEq, Eq)]
pub enum MetaType {
    Scalar { name: String, kind: BuiltinScalar },
    Object { name: String, fields: Vec<Field>, interfaces: Vec<String> },
    Interface { name: String, fields: Vec<Field>, possible_types: Vec<String> },
    Union { name: String, possible_types: Vec<String> },
    Enum { name: String, values: Vec<String> },
    InputObject { name: String, input_fields: Vec<Argument> },
    Placeholder { name: String },
}

impl MetaType {
    pub open spec fn spec_name(&self) -> Seq<char> {
        match self {
            MetaType::Scalar { name, .. } => name@,
            MetaType::Object { name, .. } => name@,
            MetaType::Interface { name, .. } => name@,
            MetaType::Union { name, .. } => name@,
            MetaType::Enum { name, .. } => name@,
            MetaType::InputObject { name, .. } => name@,
            MetaType::Placeholder { name } => name@,
        }
    }

    /// The name under which this type is registered.
    pub fn name(&self) -> (r: &String)
        ensures
            r@ == self.spec_name(),
    {
        match self {
            MetaType::Scalar { name, .. } => name,
            MetaType::Object { name, .. } => name,
            MetaType::Interface { name, .. } => name,
            MetaType::Union { name, .. } => name,
            MetaType::Enum { name, .. } => name,
            MetaType::InputObject { name, .. } => name,
            MetaType::Placeholder { name } => name,
        }
    }

    pub open spec fn is_placeholder(&self) -> bool {
        self is Placeholder
    }
}

/// The schema's types, in the order in which they were registered. A name may
/// stand more than once until `finalize` has checked that all its
/// registrations agree.
pub struct Registry {
    pub types: Vec<MetaType>,
}

/// The index of the first type at or after `i` that is registered under
/// `name` with a body, or -1.
pub open spec fn find_type_from(types: Seq<MetaType>, name: Seq<char>, i: int) -> int
    decreases types.len() - i,
{
    if i < 0 || i >= types.len() {
        -1
    } else if !types[i].is_placeholder() && types[i].spec_name() == name {
        i
    } else {
        find_type_from(types, name, i + 1)
    }
}

/// The index of the first field at or after `i` named `name`, or -1.
pub open spec fn find_field_from(fields: Seq<Field>, name: Seq<char>, i: int) -> int
    decreases fields.len() - i,
{
    if i < 0 || i >= fields.len() {
        -1
    } else if fields[i].name@ == name {
        i
    } else {
        find_field_from(fields, name, i + 1)
    }
}

pub proof fn lemma_find_type_result(types: Seq<MetaType>, name: Seq<char>, i: int)
    requires
        0 <= i,
    ensures
        find_type_from(types, name, i) == -1 || (i <= find_type_from(types, name, i) < types.len()
            && !types[find_type_from(types, name, i)].is_placeholder()
            && types[find_type_from(types, name, i)].spec_name() == name),
    decreases types.len() - i,
{
    if i < types.len() {
        lemma_find_type_result(types, name, i + 1);
    }
}

/// The position of the registered body of `name`, if any.
pub fn find_type(types: &Vec<MetaType>, name: &String) -> (r: Option<usize>)
    ensures
        match r {
            Some(i) => i as int == find_type_from(types@, name@, 0) && i < types@.len(),
            None => find_type_from(types@, name@, 0) == -1,
        },
{
    let mut i: usize = 0;
    while i < types.len()
        invariant
            i <= types@.len(),
            find_type_from(types@, name@, 0) == find_type_from(types@, name@, i as int),
        decreases types@.len() - i,
    {
        let t = &types[i];
        let is_ph = match t {
            MetaType::Placeholder { .. } => true,
            _ => false,
        };
        if !is_ph && t.name().eq(name) {
            return Some(i);
        }
        i = i + 1;
    }
    None
}

/// The position of the field named `name`, if any.
pub fn find_field(fields: &Vec<Field>, name: &String) -> (r: Option<usize>)
    ensures
        match r {
            Some(i) => i as int == find_field_from(fields@, name@, 0) && i < fields@.len(),
            None => find_field_from(fields@, name@, 0) == -1,
        },
{
    let mut i: usize = 0;
    while i < fields.len()
        invariant
            i <= fields@.len(),
            find_field_from(fields@, name@, 0) == find_field_from(fields@, name@, i as int),
        decreases fields@.len() - i,
    {
        if fields[i].name.eq(name) {
            return Some(i);
        }
        i = i + 1;
    }
    None
}

/// Whether two type references are written alike.
pub open spec fn same_type_ref(a: TypeRef, b: TypeRef) -> bool
    decreases a,
{
    match (a, b) {
        (TypeRef::Named(x), TypeRef::Named(y)) => x@ == y@,
        (TypeRef::List(x), TypeRef::List(y)) => same_type_ref(*x, *y),
        (TypeRef::NonNull(x), TypeRef::NonNull(y)) => same_type_ref(*x, *y),
        _ => false,
    }
}

pub open spec fn default_view(d: Option<Value>) -> Option<ValueView> {
    match d {
        Some(v) => Some(v@),
        None => None,
    }
}

pub open spec fn deprecation_view(d: Option<String>) -> Option<Seq<char>> {
    match d {
        Some(s) => Some(s@),
        None => None,
    }
}

pub open spec fn same_names(a: Seq<String>, b: Seq<String>) -> bool {
    a.len() == b.len() && forall|i: int| 0 <= i < a.len() ==> (#[trigger] a[i])@ == b[i]@
}

pub open spec fn same_arguments(a: Seq<Argument>, b: Seq<Argument>) -> bool {
    a.len() == b.len() && forall|i: int|
        0 <= i < a.len() ==> (#[trigger] a[i]).name@ == b[i].name@ && same_type_ref(
            a[i].ty,
            b[i].ty,
        ) && default_view(a[i].default) == default_view(b[i].default)
}

pub open spec fn same_fields(a: Seq<Field>, b: Seq<Field>) -> bool {
    a.len() == b.len() && forall|i: int|
        0 <= i < a.len() ==> (#[trigger] a[i]).name@ == b[i].name@ && same_type_ref(
            a[i].ty,
            b[i].ty,
        ) && same_arguments(a[i].arguments@, b[i].arguments@) && deprecation_view(a[i].deprecation)
            == deprecation_view(b[i].deprecation)
}

/// Whether two registrations describe the same type.
pub open spec fn same_shape(a: MetaType, b: MetaType) -> bool {
    match (a, b) {
        (MetaType::Scalar { name: n1, kind: k1 }, MetaType::Scalar { name: n2, kind: k2 }) => n1@
            == n2@ && k1 == k2,
        (
            MetaType::Object { name: n1, fields: f1, interfaces: i1 },
            MetaType::Object { name: n2, fields: f2, interfaces: i2 },
        ) => n1@ == n2@ && same_fields(f1@, f2@) && same_names(i1@, i2@),
        (
            MetaType::Interface { name: n1, fields: f1, possible_types: poss_a },
            MetaType::Interface { name: n2, fields: f2, possible_types: poss_b },
        ) => n1@ == n2@ && same_fields(f1@, f2@) && same_names(poss_a@, poss_b@),
        (
            MetaType::Union { name: n1, possible_types: poss_a },
            MetaType::Union { name: n2, possible_types: poss_b },
        ) => n1@ == n2@ && same_names(poss_a@, poss_b@),
        (MetaType::Enum { name: n1, values: v1 }, MetaType::Enum { name: n2, values: v2 }) => n1@
            == n2@ && same_names(v1@, v2@),
        (
            MetaType::InputObject { name: n1, input_fields: f1 },
            MetaType::InputObject { name: n2, input_fields: f2 },
        ) => n1@ == n2@ && same_arguments(f1@, f2@),
        (MetaType::Placeholder { name: n1 }, MetaType::Placeholder { name: n2 }) => n1@ == n2@,
        _ => false,
    }
}

fn type_refs_alike(a: &TypeRef, b: &TypeRef) -> (r: bool)
    ensures
        r == same_type_ref(*a, *b),
    decreases *a,
{
    match (a, b) {
        (TypeRef::Named(x), TypeRef::Named(y)) => x.eq(y),
        (TypeRef::List(x), TypeRef::List(y)) => type_refs_alike(x, y),
        (TypeRef::NonNull(x), TypeRef::NonNull(y)) => type_refs_alike(x, y),
        _ => false,
    }
}

fn defaults_alike(a: &Option<Value>, b: &Option<Value>) -> (r: bool)
    ensures
        r == (default_view(*a) == default_view(*b)),
{
    match (a, b) {
        (Some(x), Some(y)) => values_equal(x, y),
        (None, None) => true,
        _ => false,
    }
}

fn deprecations_alike(a: &Option<String>, b: &Option<String>) -> (r: bool)
    ensures
        r == (deprecation_view(*a) == deprecation_view(*b)),
{
    match (a, b) {
        (Some(x), Some(y)) => x.eq(y),
        (None, None) => true,
        _ => false,
    }
}

fn names_alike(a: &Vec<String>, b: &Vec<String>) -> (r: bool)
    ensures
        r == same_names(a@, b@),
{
    if a.len() != b.len() {
        return false;
    }
    let mut i: usize = 0;
    while i < a.len()
        invariant
            a@.len() == b@.len(),
            i <= a@.len(),
            forall|j: int| 0 <= j < i ==> (#[trigger] a@[j])@ == b@[j]@,
        decreases a@.len() - i,
    {
        if !a[i].eq(&b[i]) {
            return false;
        }
        i = i + 1;
    }
    true
}

fn arguments_alike(a: &Vec<Argument>, b: &Vec<Argument>) -> (r: bool)
    ensures
        r == same_arguments(a@, b@),
{
    if a.len() != b.len() {
        return false;
    }
    let mut i: usize = 0;
    while i < a.len()
        invariant
            a@.len() == b@.len(),
            i <= a@.len(),
            forall|j: int|
                0 <= j < i ==> (#[trigger] a@[j]).name@ == b@[j].name@ && same_type_ref(
                    a@[j].ty,
                    b@[j].ty,
                ) && default_view(a@[j].default) == default_view(b@[j].default),
        decreases a@.len() - i,
    {
        if !a[i].name.eq(&b[i].name) || !type_refs_alike(&a[i].ty, &b[i].ty) || !defaults_alike(
            &a[i].default,
            &b[i].default,
        ) {
            return false;
        }
        i = i + 1;
    }
    true
}

fn fields_alike(a: &Vec<Field>, b: &Vec<Field>) -> (r: bool)
    ensures
        r == same_fields(a@, b@),
{
    if a.len() != b.len() {
        return false;
    }
    let mut i: usize = 0;
    while i < a.len()
        invariant
            a@.len() == b@.len(),
            i <= a@.len(),
            forall|j: int|
                0 <= j < i ==> (#[trigger] a@[j]).name@ == b@[j].name@ && same_type_ref(
                    a@[j].ty,
                    b@[j].ty,
                ) && same_arguments(a@[j].arguments@, b@[j].arguments@) && deprecation_view(
                    a@[j].deprecation,
                ) == deprecation_view(b@[j].deprecation),
        decreases a@.len() - i,
    {
        if !a[i].name.eq(&b[i].name) || !type_refs_alike(&a[i].ty, &b[i].ty)
            || !arguments_alike(&a[i].arguments, &b[i].arguments) || !deprecations_alike(
            &a[i].deprecation,
            &b[i].deprecation,
        ) {
            return false;
        }
        i = i + 1;
    }
    true
}

/// Whether two registrations describe the same type.
pub fn shapes_alike(a: &MetaType, b: &MetaType) -> (r: bool)
    ensures
        r == same_shape(*a, *b),
{
    match (a, b) {
        (MetaType::Scalar { name: n1, kind: k1 }, MetaType::Scalar { name: n2, kind: k2 }) => n1.eq(
            n2,
        ) && *k1 == *k2,
        (
            MetaType::Object { name: n1, fields: f1, interfaces: i1 },
            MetaType::Object { name: n2, fields: f2, interfaces: i2 },
        ) => n1.eq(n2) && fields_alike(f1, f2) && names_alike(i1, i2),
        (
            MetaType::Interface { name: n1, fields: f1, possible_types: poss_a },
            MetaType::Interface { name: n2, fields: f2, possible_types: poss_b },
        ) => n1.eq(n2) && fields_alike(f1, f2) && names_alike(poss_a, poss_b),
        (
            MetaType::Union { name: n1, possible_types: poss_a },
            MetaType::Union { name: n2, possible_types: poss_b },
        ) => n1.eq(n2) && names_alike(poss_a, poss_b),
        (MetaType::Enum { name: n1, values: v1 }, MetaType::Enum { name: n2, values: v2 }) => n1.eq(
            n2,
        ) && names_alike(v1, v2),
        (
            MetaType::InputObject { name: n1, input_fields: f1 },
            MetaType::InputObject { name: n2, input_fields: f2 },
        ) => n1.eq(n2) && arguments_alike(f1, f2),
        (MetaType::Placeholder { name: n1 }, MetaType::Placeholder { name: n2 }) => n1.eq(n2),
        _ => false,
    }
}

/// Two bodies registered under one name that describe different types.
pub open spec fn has_conflict(types: Seq<MetaType>) -> bool {
    exists|i: int, j: int|
        0 <= i < types.len() && 0 <= j < types.len() && !types[i].is_placeholder()
            && !types[j].is_placeholder() && #[trigger] types[i].spec_name()
            == #[trigger] types[j].spec_name() && !same_shape(types[i], types[j])
}

/// A placeholder whose name never received a body.
pub open spec fn has_unresolved(types: Seq<MetaType>) -> bool {
    exists|i: int|
        0 <= i < types.len() && #[trigger] types[i].is_placeholder() && find_type_from(
            types,
            types[i].spec_name(),
            0,
        ) == -1
}

/// Whether some registration, placeholder or body, carries `name`.
pub open spec fn is_known(types: Seq<MetaType>, name: Seq<char>) -> bool {
    exists|i: int| 0 <= i < types.len() && #[trigger] types[i].spec_name() == name
}

/// Why a registry cannot be sealed.
#[derive(Debug, PartialEq, Eq)]
pub enum RegistryError {
    /// Two bodies registered under this name differ.
    Conflict(String),
    /// This name was reserved and never received a body.
    Unresolved(String),
}

impl Registry {
    /// An empty registry.
    pub fn new() -> (r: Registry)
        ensures
            r.types@.len() == 0,
    {
        Registry { types: Vec::new() }
    }

    /// Records a type body (or placeholder).
    pub fn register(&mut self, meta: MetaType)
        ensures
            final(self).types@ == old(self).types@.push(meta),
    {
        self.types.push(meta);
    }

    /// Starts building `name`: where no registration carries the name yet,
    /// records a placeholder for it and returns true, and the caller then
    /// registers its body; where one does (the type is built or being
    /// built), changes nothing and returns false.
    pub fn reserve(&mut self, name: String) -> (r: bool)
        ensures
            r == !is_known(old(self).types@, name@),
            r ==> final(self).types@ == old(self).types@.push(MetaType::Placeholder { name }),
            !r ==> final(self).types@ == old(self).types@,
    {
        let mut i: usize = 0;
        while i < self.types.len()
            invariant
                i <= self.types@.len(),
                forall|j: int| 0 <= j < i ==> #[trigger] self.types@[j].spec_name() != name@,
            decreases self.types@.len() - i,
        {
            if self.types[i].name().eq(&name) {
                return false;
            }
            i = i + 1;
        }
        self.types.push(MetaType::Placeholder { name });
        true
    }

    /// The body registered first under `name`, if any.
    pub fn get(&self, name: &String) -> (r: Option<&MetaType>)
        ensures
            match r {
                Some(t) => {
                    let k = find_type_from(self.types@, name@, 0);
                    0 <= k < self.types@.len() && *t == self.types@[k]
                },
                None => find_type_from(self.types@, name@, 0) == -1,
            },
    {
        match find_type(&self.types, name) {
            Some(k) => Some(&self.types[k]),
            None => None,
        }
    }

    /// Seals the registry: fails where two bodies under one name differ
    /// (reported first), or else where a placeholder never received a body.
    pub fn finalize(&self) -> (r: Result<(), RegistryError>)
        ensures
            r is Ok <==> !has_conflict(self.types@) && !has_unresolved(self.types@),
            r matches Err(RegistryError::Conflict(n)) ==> has_conflict(self.types@)
                && exists|i: int|
                0 <= i < self.types@.len() && !self.types@[i].is_placeholder()
                    && #[trigger] self.types@[i].spec_name() == n@,
            r matches Err(RegistryError::Unresolved(n)) ==> !has_conflict(self.types@)
                && has_unresolved(self.types@) && is_known(self.types@, n@) && find_type_from(
                self.types@,
                n@,
                0,
            ) == -1,
    {
        let types = &self.types;
        let mut i: usize = 0;
        while i < types.len()
            invariant
                types@ == self.types@,
                i <= types@.len(),
                forall|a: int, b: int|
                    0 <= a < i && 0 <= b < types@.len() && !types@[a].is_placeholder()
                        && !types@[b].is_placeholder() && #[trigger] types@[a].spec_name()
                        == #[trigger] types@[b].spec_name() ==> same_shape(types@[a], types@[b]),
            decreases types@.len() - i,
        {
            let ti = &types[i];
            let ph_i = match ti {
                MetaType::Placeholder { .. } => true,
                _ => false,
            };
            let mut j: usize = 0;
            while j < types.len()
                invariant
                    types@ == self.types@,
                    i < types@.len(),
                    j <= types@.len(),
                    *ti == types@[i as int],
                    ph_i == types@[i as int].is_placeholder(),
                    forall|a: int, b: int|
                        0 <= a < i && 0 <= b < types@.len() && !types@[a].is_placeholder()
                            && !types@[b].is_placeholder() && #[trigger] types@[a].spec_name()
                            == #[trigger] types@[b].spec_name() ==> same_shape(
                            types@[a],
                            types@[b],
                        ),
                    forall|b: int|
                        0 <= b < j && !types@[i as int].is_placeholder()
                            && !types@[b].is_placeholder() && types@[i as int].spec_name()
                            == #[trigger] types@[b].spec_name() ==> same_shape(
                            types@[i as int],
                            types@[b],
                        ),
                decreases types@.len() - j,
            {
                let tj = &types[j];
                let ph_j = match tj {
                    MetaType::Placeholder { .. } => true,
                    _ => false,
                };
                if !ph_i && !ph_j && ti.name().eq(tj.name()) && !shapes_alike(ti, tj) {
                    assert(types@[i as int].spec_name() == types@[j as int].spec_name());
                    assert(has_conflict(types@));
                    let n = ti.name().clone();
                    assert(n@ == types@[i as int].spec_name());
                    assert(!types@[i as int].is_placeholder());
                    return Err(RegistryError::Conflict(n));
                }
                j = j + 1;
            }
            i = i + 1;
        }
        let mut i: usize = 0;
        while i < types.len()
            invariant
                types@ == self.types@,
                i <= types@.len(),
                !has_conflict(types@),
                forall|a: int|
                    0 <= a < i && #[trigger] types@[a].is_placeholder() ==> find_type_from(
                        types@,
                        types@[a].spec_name(),
                        0,
                    ) != -1,
            decreases types@.len() - i,
        {
            let ti = &types[i];
            let is_ph = match ti {
                MetaType::Placeholder { .. } => true,
                _ => false,
            };
            if is_ph {
                if find_type(types, ti.name()).is_none() {
                    assert(types@[i as int].is_placeholder());
                    assert(has_unresolved(types@));
                    assert(is_known(types@, types@[i as int].spec_name()));
                    let n = ti.name().clone();
                    assert(n@ == types@[i as int].spec_name());
                    assert(find_type_from(types@, n@, 0) == -1);
                    return Err(RegistryError::Unresolved(n));
                }
            }
            i = i + 1;
        }
        Ok(())
    }
}

/// Whether `t` is `String!`.
pub open spec fn is_non_null_string(t: TypeRef) -> bool {
    match t {
        TypeRef::NonNull(inner) => match *inner {
            TypeRef::Named(n) => n@ == "String"@,
            _ => false,
        },
        _ => false,
    }
}

/// One field of type `String!` without arguments for each of `names`, in
/// order: the shape of a type whose field list is only known at run time.
pub fn string_fields(names: &Vec<String>) -> (r: Vec<Field>)
    ensures
        r@.len() == names@.len(),
        forall|i: int|
            0 <= i < names@.len() ==> (#[trigger] r@[i]).name@ == names@[i]@ && is_non_null_string(
                r@[i].ty,
            ) && r@[i].arguments@.len() == 0 && r@[i].deprecation is None,
{
    let mut r: Vec<Field> = Vec::new();
    let mut i: usize = 0;
    while i < names.len()
        invariant
            i <= names@.len(),
            r@.len() == i,
            forall|j: int|
                0 <= j < i ==> (#[trigger] r@[j]).name@ == names@[j]@ && is_non_null_string(
                    r@[j].ty,
                ) && r@[j].arguments@.len() == 0 && r@[j].deprecation is None,
        decreases names@.len() - i,
    {
        let ty = TypeRef::NonNull(Box::new(TypeRef::Named("String".to_owned())));
        r.push(Field { name: names[i].clone(), ty, arguments: Vec::new(), deprecation: None });
        i = i + 1;
    }
    r
}

/// An object type named `name` with the fields `fields` and no interfaces.
pub fn build_object_type(name: String, fields: Vec<Field>) -> (r: MetaType)
    ensures
        r == (MetaType::Object { name, fields, interfaces: r->Object_interfaces }),
        r->Object_interfaces@.len() == 0,
{
    MetaType::Object { name, fields, interfaces: Vec::new() }
}

} // verus!
