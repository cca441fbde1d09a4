//! The value tree a successful parse produces, and its mathematical model.

use vstd::prelude::*;

verus! {

/// The mathematical model of a document value.
///
/// Objects are modelled as a map from key text to value, so two objects are
/// equal exactly when they bind the same keys to the same values, regardless
/// of the order in which their entries were written. Arrays are modelled as a
/// sequence, so element order matters.
pub ghost enum SpecValue {
    String(Seq<char>),
    Number(int),
    Object(Map<Seq<char>, SpecValue>),
    Array(Seq<SpecValue>),
    Boolean(bool),
    Null,
}

/// A parsed document value: a closed sum over the six JSON-flavoured shapes.
///
/// An object is stored as its entry list in insertion order; the model
/// collapses that list to a map (`kv_map`), under which a later entry for a
/// key wins. A tree built by the parser additionally satisfies [`Value::wf`]:
/// every object's keys are distinct.
#[derive(Debug, PartialEq, Eq)]
pub enum Value {
    String(String),
    Number(i64),
    Object(Vec<(String, Value)>),
    Array(Vec<Value>),
    Boolean(bool),
    Null,
}

/// Folds a list of key/value entries into a map; a later entry for the same
/// key overwrites an earlier one.
pub open spec fn kv_map(entries: Seq<(Seq<char>, SpecValue)>) -> Map<Seq<char>, SpecValue>
    decreases entries.len(),
{
    if entries.len() == 0 {
        Map::empty()
    } else {
        kv_map(entries.drop_last()).insert(entries.last().0, entries.last().1)
    }
}

/// The model of one concrete value tree.
pub open spec fn spec_of_value(v: Value) -> SpecValue
    decreases v, 0int,
{
    match v {
        Value::String(text) => SpecValue::String(text@),
        Value::Number(n) => SpecValue::Number(n as int),
        Value::Object(pairs) => SpecValue::Object(pairs_model(pairs@)),
        Value::Array(elems) => SpecValue::Array(elems_model(elems@)),
        Value::Boolean(b) => SpecValue::Boolean(b),
        Value::Null => SpecValue::Null,
    }
}

/// The models of an array's elements, in order.
pub open spec fn elems_model(elems: Seq<Value>) -> Seq<SpecValue>
    decreases elems, 0int,
{
    Seq::new(
        elems.len(),
        |i: int|
            if 0 <= i < elems.len() {
                spec_of_value(elems[i])
            } else {
                SpecValue::Null
            },
    )
}

/// The key/value models of an object's entry list, in order.
pub open spec fn entries_model(pairs: Seq<(String, Value)>) -> Seq<(Seq<char>, SpecValue)>
    decreases pairs, 0int,
{
    Seq::new(
        pairs.len(),
        |i: int|
            if 0 <= i < pairs.len() {
                (pairs[i].0@, spec_of_value(pairs[i].1))
            } else {
                (Seq::<char>::empty(), SpecValue::Null)
            },
    )
}

/// The mapping an object's entry list denotes: a later entry for the same
/// key overwrites an earlier one.
pub open spec fn pairs_model(pairs: Seq<(String, Value)>) -> Map<Seq<char>, SpecValue>
    decreases pairs, 1int,
{
    kv_map(entries_model(pairs))
}

/// The keys of an entry list are pairwise distinct.
pub open spec fn distinct_keys(pairs: Seq<(String, Value)>) -> bool {
    forall|i: int, j: int| 0 <= i < j < pairs.len() ==> pairs[i].0@ != pairs[j].0@
}

impl View for Value {
    type V = SpecValue;

    open spec fn view(&self) -> SpecValue {
        spec_of_value(*self)
    }
}

/// Appending an element appends its model.
pub proof fn lemma_elems_model_push(elems: Seq<Value>, v: Value)
    ensures
        elems_model(elems.push(v)) == elems_model(elems).push(spec_of_value(v)),
{
    assert(elems_model(elems.push(v)) =~= elems_model(elems).push(spec_of_value(v)));
}

/// Appending an entry for a fresh or already-present key makes the denoted
/// mapping gain exactly that binding.
pub proof fn lemma_pairs_model_push(pairs: Seq<(String, Value)>, k: String, v: Value)
    ensures
        pairs_model(pairs.push((k, v))) == pairs_model(pairs).insert(k@, spec_of_value(v)),
{
    let cs = entries_model(pairs.push((k, v)));
    assert(cs.drop_last() =~= entries_model(pairs));
    assert(cs.last() == (k@, spec_of_value(v)));
    assert(cs.len() > 0);
}

/// Overwriting the value at `idx` (whose key is unique in the list)
/// overwrites exactly that key's binding in the denoted mapping.
pub proof fn lemma_kv_map_update(cs: Seq<(Seq<char>, SpecValue)>, idx: int, v: SpecValue)
    requires
        0 <= idx < cs.len(),
        forall|j: int| 0 <= j < cs.len() && j != idx ==> cs[j].0 != cs[idx].0,
    ensures
        kv_map(cs.update(idx, (cs[idx].0, v))) == kv_map(cs).insert(cs[idx].0, v),
    decreases cs.len(),
{
    let k = cs[idx].0;
    let cs2 = cs.update(idx, (k, v));
    if idx == cs.len() - 1 {
        assert(cs2.drop_last() =~= cs.drop_last());
        assert(kv_map(cs2) == kv_map(cs.drop_last()).insert(k, v));
        assert(kv_map(cs.drop_last()).insert(k, cs[idx].1).insert(k, v) =~= kv_map(
            cs.drop_last(),
        ).insert(k, v));
    } else {
        let last = cs.last();
        assert(cs2.last() == last);
        assert(cs2.drop_last() =~= cs.drop_last().update(idx, (k, v)));
        assert(cs.drop_last()[idx] == cs[idx]);
        lemma_kv_map_update(cs.drop_last(), idx, v);
        assert(kv_map(cs2) == kv_map(cs.drop_last()).insert(k, v).insert(last.0, last.1));
        assert(last.0 != k);
        assert(kv_map(cs.drop_last()).insert(k, v).insert(last.0, last.1) =~= kv_map(
            cs.drop_last(),
        ).insert(last.0, last.1).insert(k, v));
    }
}

/// The entry-list form of the update lemma, at the level of value trees.
pub proof fn lemma_pairs_model_update(pairs: Seq<(String, Value)>, idx: int, k: String, v: Value)
    requires
        0 <= idx < pairs.len(),
        pairs[idx].0@ == k@,
        distinct_keys(pairs),
    ensures
        pairs_model(pairs.update(idx, (k, v))) == pairs_model(pairs).insert(
            k@,
            spec_of_value(v),
        ),
{
    let cs = entries_model(pairs);
    assert(entries_model(pairs.update(idx, (k, v))) =~= cs.update(idx, (k@, spec_of_value(v))));
    assert(forall|j: int| 0 <= j < cs.len() && j != idx ==> cs[j].0 != cs[idx].0) by {
        assert(forall|j: int|
            0 <= j < pairs.len() && j != idx ==> pairs[j].0@ != pairs[idx].0@);
    }
    assert(cs[idx].0 == k@);
    lemma_kv_map_update(cs, idx, spec_of_value(v));
    assert(cs.update(idx, (k@, spec_of_value(v))) == cs.update(idx, (cs[idx].0, spec_of_value(v))));
}

impl Value {
    /// Well-formedness: every object in the tree has pairwise-distinct keys.
    pub open spec fn wf(self) -> bool
        decreases self,
    {
        match self {
            Value::Object(pairs) => (forall|i: int, j: int|
                0 <= i < j < pairs@.len() ==> pairs@[i].0@ != pairs@[j].0@)
                && (forall|i: int|
                    0 <= i < pairs@.len() ==> #[trigger] pairs@[i].1.wf()),
            Value::Array(elems) => forall|i: int|
                0 <= i < elems@.len() ==> #[trigger] elems@[i].wf(),
            _ => true,
        }
    }
}

impl From<i64> for Value {
    fn from(value: i64) -> Value {
        Value::Number(value)
    }
}

impl vstd::std_specs::convert::FromSpecImpl<i64> for Value {
    open spec fn obeys_from_spec() -> bool {
        true
    }

    open spec fn from_spec(value: i64) -> Value {
        Value::Number(value)
    }
}

impl From<()> for Value {
    fn from(value: ()) -> Value {
        Value::Null
    }
}

impl vstd::std_specs::convert::FromSpecImpl<()> for Value {
    open spec fn obeys_from_spec() -> bool {
        true
    }

    open spec fn from_spec(value: ()) -> Value {
        Value::Null
    }
}

impl From<bool> for Value {
    fn from(value: bool) -> Value {
        Value::Boolean(value)
    }
}

impl vstd::std_specs::convert::FromSpecImpl<bool> for Value {
    open spec fn obeys_from_spec() -> bool {
        true
    }

    open spec fn from_spec(value: bool) -> Value {
        Value::Boolean(value)
    }
}

impl From<String> for Value {
    fn from(value: String) -> Value {
        Value::String(value)
    }
}

impl vstd::std_specs::convert::FromSpecImpl<String> for Value {
    open spec fn obeys_from_spec() -> bool {
        true
    }

    open spec fn from_spec(value: String) -> Value {
        Value::String(value)
    }
}

impl From<Vec<Value>> for Value {
    fn from(values: Vec<Value>) -> Value {
        Value::Array(values)
    }
}

impl vstd::std_specs::convert::FromSpecImpl<Vec<Value>> for Value {
    open spec fn obeys_from_spec() -> bool {
        true
    }

    open spec fn from_spec(values: Vec<Value>) -> Value {
        Value::Array(values)
    }
}

impl From<Vec<(String, Value)>> for Value {
    fn from(value: Vec<(String, Value)>) -> Value {
        Value::Object(value)
    }
}

impl vstd::std_specs::convert::FromSpecImpl<Vec<(String, Value)>> for Value {
    open spec fn obeys_from_spec() -> bool {
        true
    }

    open spec fn from_spec(value: Vec<(String, Value)>) -> Value {
        Value::Object(value)
    }
}

} // verus!
