//! Structured documents: the schema-less form in which aggregates are stored.
use vstd::prelude::*;

verus! {

/// A value of a structured document.
#[derive(Debug, PartialEq, Eq)]
pub enum Value {
    Null,
    Boolean(bool),
    Int32(i32),
    Int64(i64),
    Text(String),
    Binary(Vec<u8>),
    Array(Vec<Value>),
    Document(Document),
}

/// A structured document: named values in the order in which their names
/// were first inserted. No name occurs twice.
#[derive(Debug, PartialEq, Eq)]
pub struct Document {
    fields: Vec<(String, Value)>,
}

/// What a [`Value`] holds.
pub ghost enum ValueView {
    Null,
    Boolean(bool),
    Int32(i32),
    Int64(i64),
    Text(Seq<char>),
    Binary(Seq<u8>),
    Array(Seq<ValueView>),
    Document(DocumentView),
}

/// What a [`Document`] holds: its names and values, in order.
pub type DocumentView = Seq<(Seq<char>, ValueView)>;

impl View for Value {
    type V = ValueView;

    open spec fn view(&self) -> ValueView
        decreases self,
    {
        match self {
            Value::Null => ValueView::Null,
            Value::Boolean(b) => ValueView::Boolean(*b),
            Value::Int32(n) => ValueView::Int32(*n),
            Value::Int64(n) => ValueView::Int64(*n),
            Value::Text(s) => ValueView::Text(s@),
            Value::Binary(bytes) => ValueView::Binary(bytes@),
            Value::Array(items) => ValueView::Array(array_view(*items)),
            Value::Document(d) => ValueView::Document(d.view()),
        }
    }
}

/// What the items of an array hold, in their order.
pub open spec fn array_view(items: Vec<Value>) -> Seq<ValueView>
    decreases items,
{
    Seq::new(
        items@.len(),
        |i: int|
            if 0 <= i < items@.len() {
                items@[i].view()
            } else {
                ValueView::Null
            },
    )
}

impl View for Document {
    type V = DocumentView;

    closed spec fn view(&self) -> DocumentView
        decreases self,
    {
        Seq::new(
            self.fields@.len(),
            |i: int|
                if 0 <= i < self.fields@.len() {
                    (self.fields@[i].0@, self.fields@[i].1.view())
                } else {
                    (Seq::empty(), ValueView::Null)
                },
        )
    }
}

/// No name occurs twice in `d`.
pub open spec fn distinct_names(d: DocumentView) -> bool {
    forall|i: int, j: int| 0 <= i < j < d.len() ==> d[i].0 != d[j].0
}

/// The position of the field named `name` in `d`, if there is one.
pub open spec fn position_of(d: DocumentView, name: Seq<char>) -> Option<int>
    decreases d.len(),
{
    if d.len() == 0 {
        None
    } else {
        match position_of(d.drop_last(), name) {
            Some(i) => Some(i),
            None => if d.last().0 == name {
                Some(d.len() - 1)
            } else {
                None
            },
        }
    }
}

/// The value of the field named `name` in `d`, if there is one.
pub open spec fn field_of(d: DocumentView, name: Seq<char>) -> Option<ValueView> {
    match position_of(d, name) {
        Some(i) => Some(d[i].1),
        None => None,
    }
}

/// `d` with the field `name` set to `value`: in place where `d` has the
/// name, at the end where it has not.
pub open spec fn inserted(d: DocumentView, name: Seq<char>, value: ValueView) -> DocumentView {
    match position_of(d, name) {
        Some(i) => d.update(i, (name, value)),
        None => d.push((name, value)),
    }
}

/// `position_of` finds the first field of that name, and finds none only
/// where there is none.
pub proof fn lemma_position_of(d: DocumentView, name: Seq<char>)
    ensures
        match position_of(d, name) {
            Some(i) => 0 <= i < d.len() && d[i].0 == name && forall|j: int|
                0 <= j < i ==> (#[trigger] d[j]).0 != name,
            None => forall|j: int| 0 <= j < d.len() ==> (#[trigger] d[j]).0 != name,
        },
    decreases d.len(),
{
    if d.len() > 0 {
        let front = d.drop_last();
        lemma_position_of(front, name);
        assert forall|j: int| 0 <= j < front.len() implies front[j] == d[j] by {}
        match position_of(front, name) {
            Some(i) => {
                assert forall|j: int| 0 <= j < i implies (#[trigger] d[j]).0 != name by {
                    assert(front[j] == d[j]);
                }
            },
            None => {
                assert forall|j: int| 0 <= j < front.len() implies (#[trigger] d[j]).0 != name by {
                    assert(front[j] == d[j]);
                }
            },
        }
    }
}

/// The first field of a name is the one that `position_of` finds.
pub proof fn lemma_position_of_first(d: DocumentView, name: Seq<char>, i: int)
    requires
        0 <= i < d.len(),
        d[i].0 == name,
        forall|j: int| 0 <= j < i ==> (#[trigger] d[j]).0 != name,
    ensures
        position_of(d, name) == Some(i),
        field_of(d, name) == Some(d[i].1),
{
    lemma_position_of(d, name);
    let k = position_of(d, name).unwrap();
    if k < i {
        assert(d[k].0 != name);
    }
    if i < k {
        assert(d[i].0 == name);
    }
}

/// A name that no field has is not found.
pub proof fn lemma_position_of_none(d: DocumentView, name: Seq<char>)
    requires
        forall|j: int| 0 <= j < d.len() ==> (#[trigger] d[j]).0 != name,
    ensures
        position_of(d, name) is None,
        field_of(d, name) is None,
{
    lemma_position_of(d, name);
    if position_of(d, name) is Some {
        let k = position_of(d, name).unwrap();
        assert(d[k].0 == name);
    }
}

/// A field that was set is found with its new value, every other name finds
/// what it found before, and names stay distinct.
pub proof fn lemma_inserted(d: DocumentView, name: Seq<char>, value: ValueView, other: Seq<char>)
    ensures
        field_of(inserted(d, name, value), name) == Some(value),
        other != name ==> field_of(inserted(d, name, value), other) == field_of(d, other),
        distinct_names(d) ==> distinct_names(inserted(d, name, value)),
{
    let e = inserted(d, name, value);
    lemma_position_of(d, name);
    lemma_position_of(d, other);
    match position_of(d, name) {
        Some(i) => {
            assert(e[i] == (name, value));
            assert forall|j: int| 0 <= j < i implies (#[trigger] e[j]).0 != name by {
                assert(e[j] == d[j]);
            }
            lemma_position_of_first(e, name, i);
        },
        None => {
            let n = d.len() as int;
            assert(e[n] == (name, value));
            assert forall|j: int| 0 <= j < n implies (#[trigger] e[j]).0 != name by {
                assert(e[j] == d[j]);
            }
            lemma_position_of_first(e, name, n);
        },
    }
    if other != name {
        match position_of(d, other) {
            Some(k) => {
                assert(e[k] == d[k]);
                assert forall|j: int| 0 <= j < k implies (#[trigger] e[j]).0 != other by {
                    if e[j] != d[j] {
                        assert(e[j].0 == name);
                    }
                    assert(d[j].0 != other);
                }
                lemma_position_of_first(e, other, k);
            },
            None => {
                assert forall|j: int| 0 <= j < e.len() implies (#[trigger] e[j]).0 != other by {
                    if j < d.len() {
                        if e[j] != d[j] {
                            assert(e[j].0 == name);
                        }
                        assert(d[j].0 != other);
                    }
                }
                lemma_position_of_none(e, other);
            },
        }
    }
    if distinct_names(d) {
        assert forall|i: int, j: int| 0 <= i < j < e.len() implies e[i].0 != e[j].0 by {
            match position_of(d, name) {
                Some(k) => {
                    assert(e[i].0 == d[i].0);
                    assert(e[j].0 == d[j].0);
                },
                None => {
                    if j < d.len() {
                        assert(e[i] == d[i] && e[j] == d[j]);
                    } else {
                        assert(e[i] == d[i]);
                        assert(d[i].0 != name);
                    }
                },
            }
        }
    }
}

impl Document {
    /// The invariant of a document: no name occurs twice.
    #[verifier::type_invariant]
    pub open spec fn well_formed(&self) -> bool {
        distinct_names(self@)
    }

    /// A document without fields.
    pub fn new() -> (d: Document)
        ensures
            d@ == Seq::<(Seq<char>, ValueView)>::empty(),
    {
        Document { fields: Vec::new() }
    }

    /// The number of fields.
    pub fn len(&self) -> (n: usize)
        ensures
            n == self@.len(),
    {
        self.fields.len()
    }

    /// Sets the field `name` to `value`: in place where the document has the
    /// name, at the end where it has not.
    pub fn insert(&mut self, name: String, value: Value)
        ensures
            final(self)@ == inserted(old(self)@, name@, value@),
    {
        proof {
            use_type_invariant(&*self);
            lemma_inserted(self@, name@, value@, name@);
        }
        let ghost before = self@;
        let ghost after = inserted(before, name@, value@);
        let mut fields: Vec<(String, Value)> = Vec::new();
        core::mem::swap(&mut self.fields, &mut fields);
        assert((Document { fields })@ =~= before);
        let n = fields.len();
        let mut i: usize = 0;
        let mut found: Option<usize> = None;
        while i < n && found.is_none()
            invariant
                i <= n,
                n == fields@.len(),
                n == before.len(),
                (Document { fields })@ == before,
                match found {
                    Some(k) => position_of(before, name@) == Some(k as int),
                    None => forall|j: int| 0 <= j < i ==> (#[trigger] before[j]).0 != name@,
                },
            decreases n - i + if found is None { 1int } else { 0int },
        {
            assert(before[i as int].0 == fields@[i as int].0@);
            if fields[i].0 == name {
                proof {
                    lemma_position_of_first(before, name@, i as int);
                }
                found = Some(i);
            } else {
                i += 1;
            }
        }
        match found {
            Some(k) => {
                proof {
                    lemma_position_of(before, name@);
                }
                fields.set(k, (name, value));
            },
            None => {
                proof {
                    lemma_position_of_none(before, name@);
                }
                fields.push((name, value));
            },
        }
        assert((Document { fields })@ =~= after);
        core::mem::swap(&mut self.fields, &mut fields);
    }

    /// The value of the field `name`, if the document has that field.
    pub fn get(&self, name: &str) -> (r: Option<&Value>)
        ensures
            match r {
                Some(value) => field_of(self@, name@) == Some(value@),
                None => field_of(self@, name@) is None,
            },
    {
        let wanted = name.to_owned();
        let n = self.fields.len();
        let mut i: usize = 0;
        while i < n
            invariant
                i <= n,
                n == self.fields@.len(),
                wanted@ == name@,
                forall|j: int| 0 <= j < i ==> (#[trigger] self@[j]).0 != name@,
            decreases n - i,
        {
            if self.fields[i].0 == wanted {
                proof {
                    lemma_position_of_first(self@, name@, i as int);
                }
                return Some(&self.fields[i].1);
            }
            i += 1;
        }
        proof {
            lemma_position_of_none(self@, name@);
        }
        None
    }

    /// The text of the field `name`, if the document has that field and it
    /// holds text.
    pub fn get_text(&self, name: &str) -> (r: Option<&String>)
        ensures
            match r {
                Some(text) => field_of(self@, name@) == Some(ValueView::Text(text@)),
                None => !(field_of(self@, name@) matches Some(ValueView::Text(_))),
            },
    {
        match self.get(name) {
            Some(Value::Text(text)) => Some(text),
            _ => None,
        }
    }

    /// The name and the value of the field at position `i`, if there is one.
    pub fn entry(&self, i: usize) -> (r: Option<(&String, &Value)>)
        ensures
            match r {
                Some((name, value)) => i < self@.len() && self@[i as int] == (name@, value@),
                None => i >= self@.len(),
            },
    {
        if i < self.fields.len() {
            Some((&self.fields[i].0, &self.fields[i].1))
        } else {
            None
        }
    }
}

/// The name of the kind of value that `v` is.
pub open spec fn kind_name(v: ValueView) -> Seq<char> {
    match v {
        ValueView::Null => "null"@,
        ValueView::Boolean(_) => "boolean"@,
        ValueView::Int32(_) => "int32"@,
        ValueView::Int64(_) => "int64"@,
        ValueView::Text(_) => "string"@,
        ValueView::Binary(_) => "binary"@,
        ValueView::Array(_) => "array"@,
        ValueView::Document(_) => "document"@,
    }
}

impl Value {
    /// The name of the kind of value that this is.
    pub fn kind(&self) -> (name: &'static str)
        ensures
            name@ == kind_name(self@),
    {
        match self {
            Value::Null => "null",
            Value::Boolean(_) => "boolean",
            Value::Int32(_) => "int32",
            Value::Int64(_) => "int64",
            Value::Text(_) => "string",
            Value::Binary(_) => "binary",
            Value::Array(_) => "array",
            Value::Document(_) => "document",
        }
    }
}

impl Clone for Value {
    /// A copy that holds what this value holds.
    fn clone(&self) -> (copy: Value)
        ensures
            copy@ == self@,
        decreases self,
    {
        match self {
            Value::Null => Value::Null,
            Value::Boolean(b) => Value::Boolean(*b),
            Value::Int32(n) => Value::Int32(*n),
            Value::Int64(n) => Value::Int64(*n),
            Value::Text(text) => Value::Text(text.clone()),
            Value::Binary(bytes) => Value::Binary(bytes.clone()),
            Value::Array(items) => {
                let mut copies: Vec<Value> = Vec::new();
                let n = items.len();
                let mut i: usize = 0;
                while i < n
                    invariant
                        i <= n,
                        n == items@.len(),
                        copies@.len() == i,
                        *self == Value::Array(*items),
                        forall|j: int| 0 <= j < i ==> (#[trigger] copies@[j])@ == items@[j]@,
                    decreases n - i,
                {
                    assert(decreases_to!(self => self->Array_0));
                    assert(decreases_to!(self->Array_0@ => self->Array_0@[i as int]));
                    copies.push(items[i].clone());
                    i += 1;
                }
                let copy = Value::Array(copies);
                assert(array_view(copies) =~= array_view(*items));
                copy
            },
            Value::Document(document) => Value::Document(document.clone()),
        }
    }
}

impl Clone for Document {
    /// A copy that holds what this document holds.
    fn clone(&self) -> (copy: Document)
        ensures
            copy@ == self@,
        decreases self,
    {
        proof {
            use_type_invariant(self);
        }
        let mut fields: Vec<(String, Value)> = Vec::new();
        let n = self.fields.len();
        let mut i: usize = 0;
        while i < n
            invariant
                i <= n,
                n == self.fields@.len(),
                fields@.len() == i,
                forall|j: int|
                    0 <= j < i ==> (#[trigger] fields@[j]).0@ == self.fields@[j].0@ && fields@[j].1@
                        == self.fields@[j].1@,
            decreases n - i,
        {
            fields.push((self.fields[i].0.clone(), self.fields[i].1.clone()));
            i += 1;
        }
        assert((Document { fields })@ =~= self@);
        Document { fields }
    }
}

} // verus!
