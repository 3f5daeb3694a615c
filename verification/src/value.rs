//! The YAML document model that annotations and contract values carry.
use vstd::prelude::*;

verus! {

/// A YAML value as it appears in annotations and contract bags.
///
/// Numbers are kept as their textual form; nothing in the library reads them.
#[derive(Debug, PartialEq)]
pub enum Value {
    Null,
    Bool(bool),
    Number(String),
    String(String),
    Sequence(Vec<Value>),
    Mapping(Vec<(Value, Value)>),
    Tagged(String, Box<Value>),
}

/// The mathematical content of a [`Value`].
pub enum ValueModel {
    Null,
    Bool(bool),
    Number(Seq<char>),
    Str(Seq<char>),
    Sequence(Seq<ValueModel>),
    Mapping(Seq<(ValueModel, ValueModel)>),
    Tagged(Seq<char>, Box<ValueModel>),
}

/// The content of a value.
pub open spec fn value_model(v: Value) -> ValueModel
    decreases v,
{
    match v {
        Value::Null => ValueModel::Null,
        Value::Bool(b) => ValueModel::Bool(b),
        Value::Number(n) => ValueModel::Number(n@),
        Value::String(s) => ValueModel::Str(s@),
        Value::Sequence(items) => ValueModel::Sequence(items_model(items@)),
        Value::Mapping(entries) => ValueModel::Mapping(entries_model(entries@)),
        Value::Tagged(t, inner) => ValueModel::Tagged(t@, Box::new(value_model(*inner))),
    }
}

/// The contents of a list of values.
pub open spec fn items_model(s: Seq<Value>) -> Seq<ValueModel>
    decreases s,
{
    if s.len() == 0 {
        Seq::empty()
    } else {
        seq![value_model(s[0])] + items_model(s.drop_first())
    }
}

/// The contents of a list of key/value pairs.
pub open spec fn entries_model(s: Seq<(Value, Value)>) -> Seq<(ValueModel, ValueModel)>
    decreases s,
{
    if s.len() == 0 {
        Seq::empty()
    } else {
        seq![(value_model(s[0].0), value_model(s[0].1))] + entries_model(s.drop_first())
    }
}

impl View for Value {
    type V = ValueModel;

    open spec fn view(&self) -> ValueModel {
        value_model(*self)
    }
}

proof fn lemma_items_model_push(s: Seq<Value>, x: Value)
    ensures
        items_model(s.push(x)) == items_model(s).push(value_model(x)),
    decreases s.len(),
{
    if s.len() == 0 {
        assert(s.push(x).drop_first() =~= Seq::<Value>::empty());
        assert(items_model(Seq::<Value>::empty()) =~= Seq::<ValueModel>::empty());
        assert(items_model(s.push(x)) =~= seq![value_model(x)]);
    } else {
        assert(s.push(x).drop_first() =~= s.drop_first().push(x));
        lemma_items_model_push(s.drop_first(), x);
        assert(items_model(s.push(x)) =~= items_model(s).push(value_model(x)));
    }
}

proof fn lemma_entries_model_push(s: Seq<(Value, Value)>, x: (Value, Value))
    ensures
        entries_model(s.push(x)) == entries_model(s).push((value_model(x.0), value_model(x.1))),
    decreases s.len(),
{
    if s.len() == 0 {
        assert(s.push(x).drop_first() =~= Seq::<(Value, Value)>::empty());
        assert(entries_model(Seq::<(Value, Value)>::empty()) =~= Seq::<(ValueModel, ValueModel)>::empty());
        assert(entries_model(s.push(x)) =~= seq![(value_model(x.0), value_model(x.1))]);
    } else {
        assert(s.push(x).drop_first() =~= s.drop_first().push(x));
        lemma_entries_model_push(s.drop_first(), x);
        assert(entries_model(s.push(x)) =~= entries_model(s).push(
            (value_model(x.0), value_model(x.1)),
        ));
    }
}

impl Clone for Value {
    fn clone(&self) -> (r: Self)
        ensures
            r@ == self@,
        decreases self,
    {
        match self {
            Value::Null => Value::Null,
            Value::Bool(b) => Value::Bool(*b),
            Value::Number(n) => Value::Number(n.clone()),
            Value::String(s) => Value::String(s.clone()),
            Value::Sequence(items) => {
                let mut out: Vec<Value> = Vec::new();
                let mut i: usize = 0;
                while i < items.len()
                    invariant
                        *self == Value::Sequence(*items),
                        i <= items@.len(),
                        items_model(out@) == items_model(items@.subrange(0, i as int)),
                    decreases items@.len() - i,
                {
                    proof {
                        let ghost sv = *self;
                        assert(decreases_to!(sv => sv->Sequence_0));
                        assert(decreases_to!(*items => items[i as int]));
                    }
                    let item = items[i].clone();
                    proof {
                        lemma_items_model_push(out@, item);
                        lemma_items_model_push(items@.subrange(0, i as int), items@[i as int]);
                        assert(items@.subrange(0, i as int).push(items@[i as int])
                            =~= items@.subrange(0, i + 1));
                    }
                    out.push(item);
                    i = i + 1;
                }
                assert(items@.subrange(0, items@.len() as int) =~= items@);
                Value::Sequence(out)
            },
            Value::Mapping(entries) => {
                let mut out: Vec<(Value, Value)> = Vec::new();
                let mut i: usize = 0;
                while i < entries.len()
                    invariant
                        *self == Value::Mapping(*entries),
                        i <= entries@.len(),
                        entries_model(out@) == entries_model(entries@.subrange(0, i as int)),
                    decreases entries@.len() - i,
                {
                    proof {
                        let ghost sv = *self;
                        assert(decreases_to!(sv => sv->Mapping_0));
                        assert(decreases_to!(*entries => entries[i as int]));
                    }
                    let k = entries[i].0.clone();
                    let v = entries[i].1.clone();
                    proof {
                        lemma_entries_model_push(out@, (k, v));
                        lemma_entries_model_push(
                            entries@.subrange(0, i as int),
                            entries@[i as int],
                        );
                        assert(entries@.subrange(0, i as int).push(entries@[i as int])
                            =~= entries@.subrange(0, i + 1));
                    }
                    out.push((k, v));
                    i = i + 1;
                }
                assert(entries@.subrange(0, entries@.len() as int) =~= entries@);
                Value::Mapping(out)
            },
            Value::Tagged(tag, inner) => {
                let v = (**inner).clone();
                Value::Tagged(tag.clone(), Box::new(v))
            },
        }
    }
}

/// The value with every tag removed (`serde_yaml::Value::untag_ref`).
pub open spec fn untag(v: Value) -> Value
    decreases v,
{
    match v {
        Value::Tagged(_, inner) => untag(*inner),
        _ => v,
    }
}

/// The boolean that a value holds once untagged.
pub open spec fn value_as_bool(v: Value) -> Option<bool> {
    match untag(v) {
        Value::Bool(b) => Some(b),
        _ => None,
    }
}

/// The text that a value holds once untagged.
pub open spec fn value_as_str(v: Value) -> Option<Seq<char>> {
    match untag(v) {
        Value::String(s) => Some(s@),
        _ => None,
    }
}

/// The first entry of a mapping whose key is the (untagged) string `key`.
pub open spec fn entries_get_str(entries: Seq<(Value, Value)>, key: Seq<char>) -> Option<Value>
    decreases entries.len(),
{
    if entries.len() == 0 {
        None
    } else if (entries[0].0 matches Value::String(k) && k@ == key) {
        Some(entries[0].1)
    } else {
        entries_get_str(entries.drop_first(), key)
    }
}

/// Looking up a string key in a value that is, once untagged, a mapping
/// (`as_mapping` followed by `get`).
pub open spec fn value_get_str(v: Value, key: Seq<char>) -> Option<Value> {
    match untag(v) {
        Value::Mapping(entries) => entries_get_str(entries@, key),
        _ => None,
    }
}

impl Value {
    /// The value with its tags removed.
    pub fn untag_ref(&self) -> (r: &Value)
        ensures
            *r == untag(*self),
        decreases self,
    {
        match self {
            Value::Tagged(_, inner) => inner.untag_ref(),
            _ => self,
        }
    }

    /// `Some(b)` when the untagged value is the boolean `b`.
    pub fn as_bool(&self) -> (r: Option<bool>)
        ensures
            r == value_as_bool(*self),
    {
        match self.untag_ref() {
            Value::Bool(b) => Some(*b),
            _ => None,
        }
    }

    /// `Some(s)` when the untagged value is the string `s`.
    pub fn as_str(&self) -> (r: Option<&str>)
        ensures
            r matches Some(s) ==> value_as_str(*self) == Some(s@),
            r is None ==> value_as_str(*self) is None,
    {
        match self.untag_ref() {
            Value::String(s) => Some(s.as_str()),
            _ => None,
        }
    }

    /// The value stored under the string key `key`, when the untagged value
    /// is a mapping.
    pub fn get_str(&self, key: &str) -> (r: Option<&Value>)
        ensures
            r matches Some(x) ==> value_get_str(*self, key@) == Some(*x),
            r is None ==> value_get_str(*self, key@) is None,
    {
        match self.untag_ref() {
            Value::Mapping(entries) => {
                let mut i: usize = 0;
                assert(entries@.skip(0) =~= entries@);
                while i < entries.len()
                    invariant
                        untag(*self) == Value::Mapping(*entries),
                        i <= entries@.len(),
                        entries_get_str(entries@, key@) == entries_get_str(
                            entries@.skip(i as int),
                            key@,
                        ),
                    decreases entries@.len() - i,
                {
                    assert(entries@.skip(i as int).drop_first() =~= entries@.skip(i + 1));
                    assert(entries@.skip(i as int)[0] == entries@[i as int]);
                    if let Value::String(k) = &entries[i].0 {
                        if crate::text::str_equal(k.as_str(), key) {
                            return Some(&entries[i].1);
                        }
                    }
                    i = i + 1;
                }
                None
            },
            _ => None,
        }
    }
}

} // verus!
