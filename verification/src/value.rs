//! The value model shared by the metadata reader and the markup renderer.

use vstd::prelude::*;

verus! {

/// A dynamically typed value tree, as a template evaluator hands it over.
#[derive(Debug, PartialEq, Eq)]
pub enum Value {
    Null,
    Bool(bool),
    Int(i64),
    /// A floating-point number, held as its decimal text.
    Float(String),
    String(String),
    /// An identifier-like scalar, distinct from `String`.
    Symbol(String),
    List(Vec<Value>),
    Vector(Vec<Value>),
    /// A hash map, as its key/value entries; a well-formed one has pairwise distinct keys.
    Hash(Vec<(Value, Value)>),
}

/// The mathematical tree that a `Value` stands for.
pub enum ValueView {
    Null,
    Bool(bool),
    Int(int),
    Float(Seq<char>),
    String(Seq<char>),
    Symbol(Seq<char>),
    List(Seq<ValueView>),
    Vector(Seq<ValueView>),
    Hash(Seq<(ValueView, ValueView)>),
}

impl View for Value {
    type V = ValueView;

    open spec fn view(&self) -> ValueView
        decreases self,
    {
        match self {
            Value::Null => ValueView::Null,
            Value::Bool(b) => ValueView::Bool(*b),
            Value::Int(n) => ValueView::Int(*n as int),
            Value::Float(s) => ValueView::Float(s@),
            Value::String(s) => ValueView::String(s@),
            Value::Symbol(s) => ValueView::Symbol(s@),
            Value::List(items) => ValueView::List(
                Seq::new(
                    items.len() as nat,
                    |i: int|
                        if 0 <= i < items.len() {
                            items[i].view()
                        } else {
                            ValueView::Null
                        },
                ),
            ),
            Value::Vector(items) => ValueView::Vector(
                Seq::new(
                    items.len() as nat,
                    |i: int|
                        if 0 <= i < items.len() {
                            items[i].view()
                        } else {
                            ValueView::Null
                        },
                ),
            ),
            Value::Hash(entries) => ValueView::Hash(
                Seq::new(
                    entries.len() as nat,
                    |i: int|
                        if 0 <= i < entries.len() {
                            (entries[i].0.view(), entries[i].1.view())
                        } else {
                            (ValueView::Null, ValueView::Null)
                        },
                ),
            ),
        }
    }
}

/// Whether no two of `entries` have the same key.
pub open spec fn distinct_keys(entries: Seq<(ValueView, ValueView)>) -> bool {
    forall|i: int, j: int|
        0 <= i < entries.len() && 0 <= j < entries.len() && i != j ==> entries[i].0
            != entries[j].0
}

impl ValueView {
    /// Whether every hash map in the tree has pairwise distinct keys.
    pub open spec fn wf(self) -> bool
        decreases self,
    {
        match self {
            ValueView::List(items) => forall|i: int|
                0 <= i < items.len() ==> (#[trigger] items[i]).wf(),
            ValueView::Vector(items) => forall|i: int|
                0 <= i < items.len() ==> (#[trigger] items[i]).wf(),
            ValueView::Hash(entries) => distinct_keys(entries) && forall|i: int|
                0 <= i < entries.len() ==> (#[trigger] entries[i]).0.wf() && entries[i].1.wf(),
            _ => true,
        }
    }
}

/// The trees that the items of a list stand for, in order.
pub open spec fn views(items: Seq<Value>) -> Seq<ValueView> {
    Seq::new(items.len(), |i: int| items[i]@)
}

/// The items of a list or a vector are viewed one by one.
pub proof fn lemma_view_items(items: Vec<Value>)
    ensures
        Value::List(items)@ == ValueView::List(views(items@)),
        Value::Vector(items)@ == ValueView::Vector(views(items@)),
{
    assert(Value::List(items)@->List_0 =~= views(items@));
    assert(Value::Vector(items)@->Vector_0 =~= views(items@));
}

/// The key and value trees that the entries of a hash map stand for, in order.
pub open spec fn entry_views(entries: Seq<(Value, Value)>) -> Seq<(ValueView, ValueView)> {
    Seq::new(entries.len(), |i: int| (entries[i].0@, entries[i].1@))
}

/// The entries of a hash map are viewed one by one.
pub proof fn lemma_view_entries(entries: Vec<(Value, Value)>)
    ensures
        Value::Hash(entries)@ == ValueView::Hash(entry_views(entries@)),
{
    reveal_with_fuel(<Value as View>::view, 2);
    let viewed = Value::Hash(entries)@->Hash_0;
    assert(viewed =~= entry_views(entries@));
}

} // verus!
