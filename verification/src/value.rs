use vstd::prelude::*;

verus! {

/// A materialized value that lives in an object store and flows between
/// workers. The runtime moves these as opaque payloads; only the built-in
/// function registry interprets them.
#[derive(Debug)]
pub enum Value {
    /// No payload (a call made purely for its completion).
    Unit,
    /// An unsigned integer.
    Int(u64),
    /// A raw byte payload.
    Bytes(Vec<u8>),
    /// A list of unsigned integers.
    List(Vec<u64>),
}

/// The mathematical model of a `Value`: vectors become sequences.
pub enum ValueModel {
    Unit,
    Int(u64),
    Bytes(Seq<u8>),
    List(Seq<u64>),
}

impl View for Value {
    type V = ValueModel;

    open spec fn view(&self) -> ValueModel {
        match self {
            Value::Unit => ValueModel::Unit,
            Value::Int(n) => ValueModel::Int(*n),
            Value::Bytes(b) => ValueModel::Bytes(b@),
            Value::List(l) => ValueModel::List(l@),
        }
    }
}

/// Copies a vector of plain words element by element.
pub fn copy_vec<T: Copy>(v: &Vec<T>) -> (r: Vec<T>)
    ensures
        r@ == v@,
{
    let mut r: Vec<T> = Vec::new();
    let mut i: usize = 0;
    while i < v.len()
        invariant
            i <= v.len(),
            r@ == v@.take(i as int),
        decreases v.len() - i,
    {
        r.push(v[i]);
        proof {
            assert(v@.take(i + 1 as int) =~= v@.take(i as int).push(v@[i as int]));
        }
        i = i + 1;
    }
    proof {
        assert(v@.take(v@.len() as int) =~= v@);
    }
    r
}

/// Compares two byte vectors for element-wise equality.
fn eq_bytes(a: &Vec<u8>, b: &Vec<u8>) -> (r: bool)
    ensures
        r <==> a@ == b@,
{
    if a.len() != b.len() {
        return false;
    }
    let mut i: usize = 0;
    while i < a.len()
        invariant
            i <= a.len(),
            a@.len() == b@.len(),
            forall|j: int| 0 <= j < i ==> a@[j] == b@[j],
        decreases a.len() - i,
    {
        if a[i] != b[i] {
            return false;
        }
        i = i + 1;
    }
    proof {
        assert(a@ =~= b@);
    }
    true
}

/// Compares two word vectors for element-wise equality.
fn eq_words(a: &Vec<u64>, b: &Vec<u64>) -> (r: bool)
    ensures
        r <==> a@ == b@,
{
    if a.len() != b.len() {
        return false;
    }
    let mut i: usize = 0;
    while i < a.len()
        invariant
            i <= a.len(),
            a@.len() == b@.len(),
            forall|j: int| 0 <= j < i ==> a@[j] == b@[j],
        decreases a.len() - i,
    {
        if a[i] != b[i] {
            return false;
        }
        i = i + 1;
    }
    proof {
        assert(a@ =~= b@);
    }
    true
}

impl Value {
    /// Copies the value. The object store hands copies out to fetchers
    /// while retaining the stored original.
    pub fn duplicate(&self) -> (r: Value)
        ensures
            r@ == self@,
    {
        match self {
            Value::Unit => Value::Unit,
            Value::Int(n) => Value::Int(*n),
            Value::Bytes(b) => Value::Bytes(copy_vec(b)),
            Value::List(l) => Value::List(copy_vec(l)),
        }
    }
}

impl PartialEq for Value {
    fn eq(&self, other: &Value) -> (r: bool) {
        match (self, other) {
            (Value::Unit, Value::Unit) => true,
            (Value::Int(a), Value::Int(b)) => a == b,
            (Value::Bytes(a), Value::Bytes(b)) => eq_bytes(a, b),
            (Value::List(a), Value::List(b)) => eq_words(a, b),
            _ => false,
        }
    }
}

impl vstd::std_specs::cmp::PartialEqSpecImpl for Value {
    open spec fn obeys_eq_spec() -> bool {
        true
    }

    open spec fn eq_spec(&self, other: &Value) -> bool {
        self@ == other@
    }
}

impl Eq for Value {}

} // verus!
