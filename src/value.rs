use vstd::prelude::*;

verus! {

/// A leaf of a result or input tree.
#[derive(Clone, Debug, PartialEq, Eq)]
pub enum ScalarValue {
    Int(i32),
    String(String),
    Boolean(bool),
}

/// What a scalar leaf means: its integer, characters or truth value.
pub enum ScalarView {
    Int(i32),
    String(Seq<char>),
    Boolean(bool),
}

impl View for ScalarValue {
    type V = ScalarView;

    open spec fn view(&self) -> ScalarView {
        match self {
            ScalarValue::Int(n) => ScalarView::Int(*n),
            ScalarValue::String(s) => ScalarView::String(s@),
            ScalarValue::Boolean(b) => ScalarView::Boolean(*b),
        }
    }
}

/// A result (or coerced input) value. Object keys keep the order in which
/// they were produced.
#[derive(Debug, PartialEq, Eq)]
pub enum Value {
    Null,
    Scalar(ScalarValue),
    List(Vec<Value>),
    Object(Vec<(String, Value)>),
}

/// The mathematical content of a `Value`.
pub enum ValueView {
    Null,
    Scalar(ScalarView),
    List(Seq<ValueView>),
    Object(Seq<(Seq<char>, ValueView)>),
}

pub open spec fn value_view(v: Value) -> ValueView
    decreases v, 0int,
{
    match v {
        Value::Null => ValueView::Null,
        Value::Scalar(s) => ValueView::Scalar(s@),
        Value::List(items) => ValueView::List(items_view(items@, items@.len() as int)),
        Value::Object(entries) => ValueView::Object(entries_view(entries@, entries@.len() as int)),
    }
}

/// The views of the first `n` items of `s`.
pub open spec fn items_view(s: Seq<Value>, n: int) -> Seq<ValueView>
    decreases s, n,
{
    if n <= 0 || n > s.len() {
        Seq::empty()
    } else {
        items_view(s, n - 1).push(value_view(s[n - 1]))
    }
}

/// The views of the first `n` entries of `s`.
pub open spec fn entries_view(s: Seq<(String, Value)>, n: int) -> Seq<(Seq<char>, ValueView)>
    decreases s, n,
{
    if n <= 0 || n > s.len() {
        Seq::empty()
    } else {
        entries_view(s, n - 1).push((s[n - 1].0@, value_view(s[n - 1].1)))
    }
}

impl View for Value {
    type V = ValueView;

    open spec fn view(&self) -> ValueView {
        value_view(*self)
    }
}

/// One step of a path from the root of a result: a response key or a list index.
#[derive(Clone, Debug, PartialEq, Eq)]
pub enum PathStep {
    Field(String),
    Index(usize),
}

pub enum StepView {
    Field(Seq<char>),
    Index(nat),
}

impl View for PathStep {
    type V = StepView;

    open spec fn view(&self) -> StepView {
        match self {
            PathStep::Field(s) => StepView::Field(s@),
            PathStep::Index(i) => StepView::Index(*i as nat),
        }
    }
}

/// A field-level error: where it arose, and why.
#[derive(Debug, PartialEq, Eq)]
pub struct ExecutionError {
    pub path: Vec<PathStep>,
    pub message: String,
}

pub struct ErrorView {
    pub path: Seq<StepView>,
    pub message: Seq<char>,
}

impl View for ExecutionError {
    type V = ErrorView;

    open spec fn view(&self) -> ErrorView {
        ErrorView { path: path_view(self.path@), message: self.message@ }
    }
}

/// Makes a leaf equal in view to `s`.
pub fn copy_scalar(s: &ScalarValue) -> (r: ScalarValue)
    ensures
        r@ == s@,
{
    match s {
        ScalarValue::Int(n) => ScalarValue::Int(*n),
        ScalarValue::String(t) => ScalarValue::String(t.clone()),
        ScalarValue::Boolean(b) => ScalarValue::Boolean(*b),
    }
}

pub open spec fn errors_view(errs: Seq<ExecutionError>) -> Seq<ErrorView> {
    errs.map_values(|e: ExecutionError| e@)
}

/// Two sequences of values that agree on their first `n` items have the same
/// first `n` views.
pub proof fn lemma_items_view_prefix(s: Seq<Value>, t: Seq<Value>, n: int)
    requires
        0 <= n <= s.len(),
        n <= t.len(),
        forall|i: int| 0 <= i < n ==> s[i] == t[i],
    ensures
        items_view(s, n) == items_view(t, n),
    decreases n,
{
    if n > 0 {
        lemma_items_view_prefix(s, t, n - 1);
    }
}

pub proof fn lemma_entries_view_prefix(s: Seq<(String, Value)>, t: Seq<(String, Value)>, n: int)
    requires
        0 <= n <= s.len(),
        n <= t.len(),
        forall|i: int| 0 <= i < n ==> s[i] == t[i],
    ensures
        entries_view(s, n) == entries_view(t, n),
    decreases n,
{
    if n > 0 {
        lemma_entries_view_prefix(s, t, n - 1);
    }
}

pub proof fn lemma_items_view_index(s: Seq<Value>, n: int, j: int)
    requires
        0 <= j < n <= s.len(),
    ensures
        items_view(s, n).len() == n,
        items_view(s, n)[j] == value_view(s[j]),
    decreases n,
{
    if n > 0 {
        if j < n - 1 {
            lemma_items_view_index(s, n - 1, j);
        } else if n > 1 {
            lemma_items_view_index(s, n - 1, 0);
        }
    }
}

pub proof fn lemma_entries_view_index(s: Seq<(String, Value)>, n: int, j: int)
    requires
        0 <= j < n <= s.len(),
    ensures
        entries_view(s, n).len() == n,
        entries_view(s, n)[j] == (s[j].0@, value_view(s[j].1)),
    decreases n,
{
    if n > 0 {
        if j < n - 1 {
            lemma_entries_view_index(s, n - 1, j);
        } else if n > 1 {
            lemma_entries_view_index(s, n - 1, 0);
        }
    }
}

/// Makes a value equal in view to `v`.
pub fn copy_value(v: &Value) -> (r: Value)
    ensures
        r@ == v@,
    decreases *v, 1int,
{
    match v {
        Value::Null => Value::Null,
        Value::Scalar(s) => Value::Scalar(copy_scalar(s)),
        Value::List(_) => copy_list(v),
        Value::Object(_) => copy_object(v),
    }
}

fn copy_list(v: &Value) -> (r: Value)
    requires
        *v is List,
    ensures
        r@ == v@,
    decreases *v, 0int,
{
    let items = match v {
        Value::List(items) => items,
        _ => {
            return Value::Null;
        },
    };
    let mut out: Vec<Value> = Vec::new();
    let mut i: usize = 0;
    while i < items.len()
        invariant
            *v == Value::List(*items),
            i <= items@.len(),
            out@.len() == i,
            forall|j: int| 0 <= j < i ==> (#[trigger] out@[j])@ == items@[j]@,
        decreases items@.len() - i,
    {
        proof {
            assert(v->List_0 == *items);
        }
        out.push(copy_value(&items[i]));
        i = i + 1;
    }
    proof {
        let n = items@.len() as int;
        assert forall|j: int| 0 <= j < n implies items_view(out@, n)[j] == items_view(
            items@,
            n,
        )[j] by {
            lemma_items_view_index(out@, n, j);
            lemma_items_view_index(items@, n, j);
        }
        if n > 0 {
            lemma_items_view_index(out@, n, 0);
            lemma_items_view_index(items@, n, 0);
        }
        assert(items_view(out@, n) =~= items_view(items@, n));
    }
    Value::List(out)
}

fn copy_object(v: &Value) -> (r: Value)
    requires
        *v is Object,
    ensures
        r@ == v@,
    decreases *v, 0int,
{
    let entries = match v {
        Value::Object(entries) => entries,
        _ => {
            return Value::Null;
        },
    };
    let mut out: Vec<(String, Value)> = Vec::new();
    let mut i: usize = 0;
    while i < entries.len()
        invariant
            *v == Value::Object(*entries),
            i <= entries@.len(),
            out@.len() == i,
            forall|j: int|
                0 <= j < i ==> (#[trigger] out@[j]).0@ == entries@[j].0@ && out@[j].1@
                    == entries@[j].1@,
        decreases entries@.len() - i,
    {
        proof {
            assert(v->Object_0 == *entries);
            assert(v->Object_0@[i as int].1 == entries@[i as int].1);
        }
        out.push((entries[i].0.clone(), copy_value(&entries[i].1)));
        i = i + 1;
    }
    proof {
        let n = entries@.len() as int;
        assert forall|j: int| 0 <= j < n implies entries_view(out@, n)[j] == entries_view(
            entries@,
            n,
        )[j] by {
            lemma_entries_view_index(out@, n, j);
            lemma_entries_view_index(entries@, n, j);
        }
        if n > 0 {
            lemma_entries_view_index(out@, n, 0);
            lemma_entries_view_index(entries@, n, 0);
        }
        assert(entries_view(out@, n) =~= entries_view(entries@, n));
    }
    Value::Object(out)
}
/// Whether two values are equal in view.
pub fn values_equal(a: &Value, b: &Value) -> (r: bool)
    ensures
        r == (a@ == b@),
    decreases *a,
{
    match (a, b) {
        (Value::Null, Value::Null) => true,
        (Value::Scalar(x), Value::Scalar(y)) => match (x, y) {
            (ScalarValue::Int(m), ScalarValue::Int(n)) => *m == *n,
            (ScalarValue::String(m), ScalarValue::String(n)) => m.eq(n),
            (ScalarValue::Boolean(m), ScalarValue::Boolean(n)) => *m == *n,
            _ => false,
        },
        (Value::List(xs), Value::List(ys)) => {
            let ghost n = xs@.len() as int;
            if xs.len() != ys.len() {
                proof {
                    if n > 0 {
                        lemma_items_view_index(xs@, n, 0);
                    }
                    if ys@.len() > 0 {
                        lemma_items_view_index(ys@, ys@.len() as int, 0);
                    }
                }
                return false;
            }
            let mut i: usize = 0;
            while i < xs.len()
                invariant
                    *a == Value::List(*xs),
                    *b == Value::List(*ys),
                    n == xs@.len(),
                    n == ys@.len(),
                    i <= n,
                    forall|j: int| 0 <= j < i ==> (#[trigger] xs@[j])@ == ys@[j]@,
                decreases xs@.len() - i,
            {
                proof {
                    assert(a->List_0 == *xs);
                }
                if !values_equal(&xs[i], &ys[i]) {
                    proof {
                        lemma_items_view_index(xs@, n, i as int);
                        lemma_items_view_index(ys@, n, i as int);
                        assert(a@->List_0[i as int] != b@->List_0[i as int]);
                    }
                    return false;
                }
                i = i + 1;
            }
            proof {
                assert forall|j: int| 0 <= j < n implies items_view(xs@, n)[j] == items_view(
                    ys@,
                    n,
                )[j] by {
                    lemma_items_view_index(xs@, n, j);
                    lemma_items_view_index(ys@, n, j);
                }
                if n > 0 {
                    lemma_items_view_index(xs@, n, 0);
                    lemma_items_view_index(ys@, n, 0);
                }
                assert(items_view(xs@, n) =~= items_view(ys@, n));
            }
            true
        },
        (Value::Object(xs), Value::Object(ys)) => {
            let ghost n = xs@.len() as int;
            if xs.len() != ys.len() {
                proof {
                    if n > 0 {
                        lemma_entries_view_index(xs@, n, 0);
                    }
                    if ys@.len() > 0 {
                        lemma_entries_view_index(ys@, ys@.len() as int, 0);
                    }
                }
                return false;
            }
            let mut i: usize = 0;
            while i < xs.len()
                invariant
                    *a == Value::Object(*xs),
                    *b == Value::Object(*ys),
                    n == xs@.len(),
                    n == ys@.len(),
                    i <= n,
                    forall|j: int|
                        0 <= j < i ==> (#[trigger] xs@[j]).0@ == ys@[j].0@ && xs@[j].1@
                            == ys@[j].1@,
                decreases xs@.len() - i,
            {
                proof {
                    assert(a->Object_0 == *xs);
                    assert(a->Object_0@[i as int].1 == xs@[i as int].1);
                }
                if !xs[i].0.eq(&ys[i].0) || !values_equal(&xs[i].1, &ys[i].1) {
                    proof {
                        lemma_entries_view_index(xs@, n, i as int);
                        lemma_entries_view_index(ys@, n, i as int);
                        assert(a@->Object_0[i as int] != b@->Object_0[i as int]);
                    }
                    return false;
                }
                i = i + 1;
            }
            proof {
                assert forall|j: int| 0 <= j < n implies entries_view(xs@, n)[j] == entries_view(
                    ys@,
                    n,
                )[j] by {
                    lemma_entries_view_index(xs@, n, j);
                    lemma_entries_view_index(ys@, n, j);
                }
                if n > 0 {
                    lemma_entries_view_index(xs@, n, 0);
                    lemma_entries_view_index(ys@, n, 0);
                }
                assert(entries_view(xs@, n) =~= entries_view(ys@, n));
            }
            true
        },
        _ => false,
    }
}

/// Makes a step that is equal in view to `p`.
pub fn copy_step(p: &PathStep) -> (r: PathStep)
    ensures
        r@ == p@,
{
    match p {
        PathStep::Field(s) => PathStep::Field(s.clone()),
        PathStep::Index(i) => PathStep::Index(*i),
    }
}

pub open spec fn path_view(p: Seq<PathStep>) -> Seq<StepView> {
    p.map_values(|s: PathStep| s@)
}

/// Makes a path equal in view to `p`.
pub fn copy_path(p: &Vec<PathStep>) -> (r: Vec<PathStep>)
    ensures
        path_view(r@) == path_view(p@),
{
    let mut r: Vec<PathStep> = Vec::new();
    let mut i: usize = 0;
    while i < p.len()
        invariant
            i <= p@.len(),
            r@.len() == i,
            forall|j: int| 0 <= j < i ==> #[trigger] r@[j]@ == p@[j]@,
        decreases p@.len() - i,
    {
        r.push(copy_step(&p[i]));
        i = i + 1;
    }
    assert(path_view(r@) =~= path_view(p@));
    r
}

/// Makes the path `p` followed by `step`.
pub fn extend_path(p: &Vec<PathStep>, step: PathStep) -> (r: Vec<PathStep>)
    ensures
        path_view(r@) == path_view(p@).push(step@),
{
    let mut r: Vec<PathStep> = Vec::new();
    let mut i: usize = 0;
    while i < p.len()
        invariant
            i <= p@.len(),
            r@.len() == i,
            forall|j: int| 0 <= j < i ==> #[trigger] r@[j]@ == p@[j]@,
        decreases p@.len() - i,
    {
        r.push(copy_step(&p[i]));
        i = i + 1;
    }
    r.push(step);
    assert(path_view(r@) =~= path_view(p@).push(step@));
    r
}

} // verus!
