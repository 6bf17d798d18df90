//! The value type of JSONqa metadata and its mathematical model.

use vstd::prelude::*;

verus! {

/// A value in JSONqa metadata. All leaves are strings.
#[derive(Debug, PartialEq, Eq)]
pub enum QaValue {
    /// Leaf value (always a string)
    String(String),
    /// Array of values
    Array(Vec<QaValue>),
    /// Nested object with ordered keys: each key occurs once, in the order in
    /// which it was first written. The entries are kept in a vector: verified
    /// code cannot hold this type inside a map type of another crate, which
    /// would contain it recursively.
    Object(Vec<(String, QaValue)>),
}

/// The model of a JSONqa value: strings are character sequences, objects are
/// sequences of key/value entries in key order of first appearance.
pub enum QaTree {
    Str(Seq<char>),
    Arr(Seq<QaTree>),
    Obj(Seq<(Seq<char>, QaTree)>),
}

/// The model of a value.
pub open spec fn value_tree(v: QaValue) -> QaTree
    decreases v,
{
    match v {
        QaValue::String(s) => QaTree::Str(s@),
        QaValue::Array(items) => QaTree::Arr(items_tree(items@)),
        QaValue::Object(entries) => QaTree::Obj(entries_tree(entries@)),
    }
}

/// The models of a sequence of values.
pub open spec fn items_tree(s: Seq<QaValue>) -> Seq<QaTree>
    decreases s,
{
    if s.len() == 0 {
        Seq::empty()
    } else {
        seq![value_tree(s[0])] + items_tree(s.subrange(1, s.len() as int))
    }
}

/// The models of a sequence of key/value entries.
pub open spec fn entries_tree(s: Seq<(String, QaValue)>) -> Seq<(Seq<char>, QaTree)>
    decreases s,
{
    if s.len() == 0 {
        Seq::empty()
    } else {
        seq![(s[0].0@, value_tree(s[0].1))] + entries_tree(s.subrange(1, s.len() as int))
    }
}

impl QaValue {
    /// Returns the string value if this is a String variant.
    pub fn as_str(&self) -> (r: Option<&str>)
        ensures
            match r {
                Some(t) => self@ == QaTree::Str(t@),
                None => !(self@ is Str),
            },
    {
        match self {
            QaValue::String(s) => Some(s.as_str()),
            _ => None,
        }
    }

    /// Returns the array if this is an Array variant.
    pub fn as_array(&self) -> (r: Option<&Vec<QaValue>>)
        ensures
            match r {
                Some(a) => self@ == QaTree::Arr(items_tree(a@)),
                None => !(self@ is Arr),
            },
    {
        match self {
            QaValue::Array(arr) => Some(arr),
            _ => None,
        }
    }

    /// Returns the object if this is an Object variant.
    pub fn as_object(&self) -> (r: Option<&Vec<(String, QaValue)>>)
        ensures
            match r {
                Some(o) => self@ == QaTree::Obj(entries_tree(o@)),
                None => !(self@ is Obj),
            },
    {
        match self {
            QaValue::Object(obj) => Some(obj),
            _ => None,
        }
    }
}

impl View for QaValue {
    type V = QaTree;

    open spec fn view(&self) -> QaTree {
        value_tree(*self)
    }
}

} // verus!

verus! {

/// The model of a sequence of values holds the model of each value, in order.
pub proof fn lemma_items_tree(s: Seq<QaValue>)
    ensures
        items_tree(s).len() == s.len(),
        forall|i: int| 0 <= i < s.len() ==> #[trigger] items_tree(s)[i] == value_tree(s[i]),
    decreases s.len(),
{
    if s.len() > 0 {
        let t = s.subrange(1, s.len() as int);
        lemma_items_tree(t);
        assert forall|i: int| 0 <= i < s.len() implies #[trigger] items_tree(s)[i] == value_tree(s[i]) by {
            if i > 0 {
                assert(s[i] == t[i - 1]);
            }
        }
    }
}

/// The model of a sequence of entries holds the model of each entry, in
/// order.
pub proof fn lemma_entries_tree(s: Seq<(String, QaValue)>)
    ensures
        entries_tree(s).len() == s.len(),
        forall|i: int|
            0 <= i < s.len() ==> #[trigger] entries_tree(s)[i] == (s[i].0@, value_tree(s[i].1)),
    decreases s.len(),
{
    if s.len() > 0 {
        let t = s.subrange(1, s.len() as int);
        lemma_entries_tree(t);
        assert forall|i: int| 0 <= i < s.len() implies #[trigger] entries_tree(s)[i] == (
            s[i].0@,
            value_tree(s[i].1),
        ) by {
            if i > 0 {
                assert(s[i] == t[i - 1]);
            }
        }
    }
}

/// Appending a value appends its model.
pub proof fn lemma_items_tree_push(s: Seq<QaValue>, v: QaValue)
    ensures
        items_tree(s.push(v)) == items_tree(s).push(value_tree(v)),
{
    lemma_items_tree(s);
    lemma_items_tree(s.push(v));
    assert(items_tree(s.push(v)) =~= items_tree(s).push(value_tree(v)));
}

/// Appending an entry appends its model.
pub proof fn lemma_entries_tree_push(s: Seq<(String, QaValue)>, e: (String, QaValue))
    ensures
        entries_tree(s.push(e)) == entries_tree(s).push((e.0@, value_tree(e.1))),
{
    lemma_entries_tree(s);
    lemma_entries_tree(s.push(e));
    assert(entries_tree(s.push(e)) =~= entries_tree(s).push((e.0@, value_tree(e.1))));
}

/// Replacing an entry replaces its model.
pub proof fn lemma_entries_tree_update(s: Seq<(String, QaValue)>, i: int, e: (String, QaValue))
    requires
        0 <= i < s.len(),
    ensures
        entries_tree(s.update(i, e)) == entries_tree(s).update(i, (e.0@, value_tree(e.1))),
{
    lemma_entries_tree(s);
    lemma_entries_tree(s.update(i, e));
    assert(entries_tree(s.update(i, e)) =~= entries_tree(s).update(i, (e.0@, value_tree(e.1))));
}


impl Clone for QaValue {
    /// A copy with the same model.
    fn clone(&self) -> (r: Self)
        ensures
            r@ == self@,
        decreases self,
    {
        match self {
            QaValue::String(s) => QaValue::String(s.clone()),
            QaValue::Array(arr) => {
                let mut out: Vec<QaValue> = Vec::new();
                let mut i: usize = 0;
                while i < arr.len()
                    invariant
                        i <= arr.len(),
                        *self == QaValue::Array(*arr),
                        out@.len() == i,
                        forall|j: int| 0 <= j < i ==> #[trigger] value_tree(out@[j]) == value_tree(arr@[j]),
                    decreases arr.len() - i,
                {
                    proof {
                        assert(decreases_to!(*self => (*self)->Array_0));
                        assert(decreases_to!(*arr => arr@));
                        assert(decreases_to!(arr@ => arr@[i as int]));
                    }
                    out.push(arr[i].clone());
                    i = i + 1;
                }
                proof {
                    lemma_items_tree(out@);
                    lemma_items_tree(arr@);
                    assert(items_tree(out@) =~= items_tree(arr@));
                }
                QaValue::Array(out)
            },
            QaValue::Object(obj) => {
                let mut out: Vec<(String, QaValue)> = Vec::new();
                let mut i: usize = 0;
                while i < obj.len()
                    invariant
                        i <= obj.len(),
                        *self == QaValue::Object(*obj),
                        out@.len() == i,
                        forall|j: int| 0 <= j < i ==> #[trigger] out@[j].0@ == obj@[j].0@ && value_tree(out@[j].1) == value_tree(obj@[j].1),
                    decreases obj.len() - i,
                {
                    proof {
                        assert(decreases_to!(*self => (*self)->Object_0));
                        assert(decreases_to!(*obj => obj@));
                        assert(decreases_to!(obj@ => obj@[i as int]));
                        assert(decreases_to!(obj@[i as int] => obj@[i as int].1));
                    }
                    let k = obj[i].0.clone();
                    let v = obj[i].1.clone();
                    out.push((k, v));
                    i = i + 1;
                }
                proof {
                    lemma_entries_tree(out@);
                    lemma_entries_tree(obj@);
                    assert(entries_tree(out@) =~= entries_tree(obj@));
                }
                QaValue::Object(out)
            },
        }
    }
}

} // verus!
