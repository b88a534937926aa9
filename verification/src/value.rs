//! The parsed tree: entries and values, and their mathematical models.

use vstd::prelude::*;

verus! {

/// The model of a [`Value`]: the same tree over mathematical sequences.
pub ghost enum ValueView {
    Int(int),
    Float { whole: Seq<char>, frac: Seq<char> },
    Text(Seq<char>),
    Object(Seq<EntryView>),
    List(Seq<ValueView>),
}

/// The model of an [`Entry`].
pub ghost struct EntryView {
    pub key: Seq<char>,
    pub value: ValueView,
}

/// A decimal literal, kept as the digits before and after its point.
///
/// The literal `whole.frac` denotes the number that these digits spell in
/// base ten; no rounding has taken place.
#[derive(Debug, PartialEq, Eq)]
pub struct Decimal {
    pub whole: String,
    pub frac: String,
}

impl Decimal {
    /// Whether both sides of the point hold one digit or more and nothing
    /// else, as in every decimal literal that the parser reads.
    pub open spec fn is_well_formed(&self) -> bool {
        crate::grammar::is_digits(self.whole@) && crate::grammar::is_digits(self.frac@)
    }

    /// All the digits of the literal as one number: the literal's value
    /// times ten to the power of [`Self::scale`].
    pub open spec fn unscaled(&self) -> int {
        crate::grammar::decimal_value(self.whole@ + self.frac@)
    }

    /// The number of digits behind the point.
    pub open spec fn scale(&self) -> nat {
        self.frac@.len()
    }
}

/// One key with its value, as written inside an object.
#[derive(Debug, PartialEq)]
pub struct Entry {
    pub key: String,
    pub value: Value,
}

/// A parsed value.
#[derive(Debug, PartialEq)]
pub enum Value {
    /// An integer literal.
    Int(i32),
    /// A literal with a decimal point.
    Float(Decimal),
    /// The content of a quoted string, escapes kept as written.
    Text(String),
    /// A nested object: its entries in source order, duplicates included.
    Object(Vec<Entry>),
    /// A list: its elements in source order.
    List(Vec<Value>),
}

impl Entry {
    /// The model of this entry.
    pub open spec fn view(&self) -> EntryView
        decreases self,
    {
        EntryView { key: self.key@, value: self.value.view() }
    }
}

impl Value {
    /// The model of this value.
    pub open spec fn view(&self) -> ValueView
        decreases self,
    {
        match self {
            Value::Int(n) => ValueView::Int(*n as int),
            Value::Float(d) => ValueView::Float { whole: d.whole@, frac: d.frac@ },
            Value::Text(t) => ValueView::Text(t@),
            Value::Object(entries) => ValueView::Object(
                Seq::new(
                    entries.len() as nat,
                    |k: int|
                        if 0 <= k < entries.len() {
                            entries[k].view()
                        } else {
                            arbitrary()
                        },
                ),
            ),
            Value::List(items) => ValueView::List(
                Seq::new(
                    items.len() as nat,
                    |k: int|
                        if 0 <= k < items.len() {
                            items[k].view()
                        } else {
                            arbitrary()
                        },
                ),
            ),
        }
    }
}

/// The models of a sequence of entries, in order.
pub open spec fn entries_view(entries: Seq<Entry>) -> Seq<EntryView> {
    Seq::new(entries.len(), |k: int| entries[k].view())
}

/// The models of a sequence of values, in order.
pub open spec fn values_view(items: Seq<Value>) -> Seq<ValueView> {
    Seq::new(items.len(), |k: int| items[k].view())
}

} // verus!
