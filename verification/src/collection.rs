//! Collections of a document store: what one can be asked to do, and what
//! it then does, as far as a repository relies on it. The second is the
//! model against which the repository's operations are stated.
use crate::document::{field_of, Document, DocumentView, ValueView};
use crate::primitives::identifier_field;
use vstd::prelude::*;

verus! {

/// What a collection is asked to do.
#[derive(Debug, PartialEq, Eq)]
pub enum Operation {
    /// Replace the first document that matches `filter` by `replacement`;
    /// where none matches and `upsert` is set, add `replacement` to the
    /// collection.
    ReplaceOne { filter: Document, replacement: Document, upsert: bool },
    /// Deliver the first document that matches `filter`.
    FindOne { filter: Document },
    /// Deliver every document that matches `filter`.
    Find { filter: Document },
    /// Remove every document.
    Drop,
}

/// An operation and the collection that is to carry it out.
#[derive(Debug, PartialEq, Eq)]
pub struct Request {
    pub db: String,
    pub collection: String,
    pub operation: Operation,
}

/// What an [`Operation`] holds.
pub ghost enum OperationView {
    ReplaceOne { filter: DocumentView, replacement: DocumentView, upsert: bool },
    FindOne { filter: DocumentView },
    Find { filter: DocumentView },
    Drop,
}

/// What a [`Request`] holds.
pub ghost struct RequestView {
    pub db: Seq<char>,
    pub collection: Seq<char>,
    pub operation: OperationView,
}

impl View for Operation {
    type V = OperationView;

    open spec fn view(&self) -> OperationView {
        match self {
            Operation::ReplaceOne { filter, replacement, upsert } => OperationView::ReplaceOne {
                filter: filter@,
                replacement: replacement@,
                upsert: *upsert,
            },
            Operation::FindOne { filter } => OperationView::FindOne { filter: filter@ },
            Operation::Find { filter } => OperationView::Find { filter: filter@ },
            Operation::Drop => OperationView::Drop,
        }
    }
}

impl View for Request {
    type V = RequestView;

    open spec fn view(&self) -> RequestView {
        RequestView { db: self.db@, collection: self.collection@, operation: self.operation@ }
    }
}

/// What a collection answers.
#[derive(Debug, PartialEq, Eq)]
pub enum Reply {
    /// To a replace-one and to a drop: that it is done, or why it is not.
    Done(Result<(), String>),
    /// To a find-one: the first document that matches, if one does, or why
    /// the search failed.
    One(Result<Option<Document>, String>),
    /// To a find: the items of the cursor over the documents that match, or
    /// why the search failed. An item is a document, or the reason why one
    /// could not be retrieved.
    Many(Result<Vec<Result<Document, String>>, String>),
}

/// A connection to a document store. How a request is carried out is its
/// own affair: nothing is known of the reply.
pub trait Connection {
    /// Sends the request to the collection that it names, and waits for the
    /// reply.
    fn perform(&self, request: Request) -> Reply;
}

/// A connection is shared by reference: what a borrowed connection is asked,
/// the connection itself is asked.
impl<'a, C: Connection> Connection for &'a C {
    /// The reply is one that the connection behind the reference gives to
    /// the same request.
    fn perform(&self, request: Request) -> (reply: Reply)
        ensures
            call_ensures(C::perform, (*self, request), reply),
    {
        (**self).perform(request)
    }
}

/// Why a reply of the wrong kind counts as a failure.
pub open spec fn wrong_reply() -> Seq<char> {
    "the collection answered another request"@
}

/// The answer that a reply holds to a replace-one or a drop: a reply of
/// another kind is a failure.
pub open spec fn done_answer(reply: Reply) -> Result<(), Seq<char>> {
    match reply {
        Reply::Done(Ok(_)) => Ok(()),
        Reply::Done(Err(reason)) => Err(reason@),
        _ => Err(wrong_reply()),
    }
}

impl Reply {
    /// The answer to a replace-one or a drop. A reply of another kind is a
    /// failure.
    pub fn done(self) -> (r: Result<(), String>)
        ensures
            match self {
                Reply::Done(answer) => r == answer,
                _ => r matches Err(reason) && reason@ == wrong_reply(),
            },
    {
        match self {
            Reply::Done(answer) => answer,
            _ => Err(String::from_str("the collection answered another request")),
        }
    }

    /// The answer to a find-one. A reply of another kind is a failure.
    pub fn one(self) -> (r: Result<Option<Document>, String>)
        ensures
            match self {
                Reply::One(answer) => r == answer,
                _ => r matches Err(reason) && reason@ == wrong_reply(),
            },
    {
        match self {
            Reply::One(answer) => answer,
            _ => Err(String::from_str("the collection answered another request")),
        }
    }

    /// The answer to a find. A reply of another kind is a failure.
    pub fn many(self) -> (r: Result<Vec<Result<Document, String>>, String>)
        ensures
            match self {
                Reply::Many(answer) => r == answer,
                _ => r matches Err(reason) && reason@ == wrong_reply(),
            },
    {
        match self {
            Reply::Many(answer) => answer,
            _ => Err(String::from_str("the collection answered another request")),
        }
    }
}

/// Whether `document` matches `filter`: it has every field of the filter,
/// with the filter's value.
pub open spec fn is_match(filter: DocumentView, document: DocumentView) -> bool {
    forall|i: int|
        0 <= i < filter.len() ==> field_of(document, (#[trigger] filter[i]).0) == Some(filter[i].1)
}

/// The position of the first document of `c` that matches `filter`.
pub open spec fn first_match(c: Seq<DocumentView>, filter: DocumentView) -> Option<int>
    decreases c.len(),
{
    if c.len() == 0 {
        None
    } else {
        match first_match(c.drop_last(), filter) {
            Some(i) => Some(i),
            None => if is_match(filter, c.last()) {
                Some(c.len() - 1)
            } else {
                None
            },
        }
    }
}

/// The documents of `c` that match `filter`, in the order of `c`.
pub open spec fn all_matches(c: Seq<DocumentView>, filter: DocumentView) -> Seq<DocumentView> {
    c.filter(|document: DocumentView| is_match(filter, document))
}

/// What the collection `c` holds after it has carried out `operation`.
pub open spec fn after(c: Seq<DocumentView>, operation: OperationView) -> Seq<DocumentView> {
    match operation {
        OperationView::ReplaceOne { filter, replacement, upsert } => match first_match(c, filter) {
            Some(i) => c.update(i, replacement),
            None => if upsert {
                c.push(replacement)
            } else {
                c
            },
        },
        OperationView::Drop => Seq::empty(),
        OperationView::FindOne { .. } => c,
        OperationView::Find { .. } => c,
    }
}

/// The document that the collection `c` delivers in reply to `operation`:
/// for a find-one, the first that matches.
pub open spec fn one_delivered(c: Seq<DocumentView>, operation: OperationView) -> Option<
    DocumentView,
> {
    match operation {
        OperationView::FindOne { filter } => match first_match(c, filter) {
            Some(i) => Some(c[i]),
            None => None,
        },
        _ => None,
    }
}

/// The documents that the collection `c` delivers in reply to `operation`:
/// for a find, all that match, in the order of `c`.
pub open spec fn all_delivered(c: Seq<DocumentView>, operation: OperationView) -> Seq<
    DocumentView,
> {
    match operation {
        OperationView::Find { filter } => all_matches(c, filter),
        _ => Seq::empty(),
    }
}

/// What a document holds in its identifier field.
pub open spec fn stored_identifier(document: DocumentView) -> Option<ValueView> {
    field_of(document, identifier_field())
}

/// Whether no two documents of `c` hold the same identifier: the invariant
/// of a collection that a repository keeps.
pub open spec fn one_per_identifier(c: Seq<DocumentView>) -> bool {
    forall|i: int, j: int|
        0 <= i < j < c.len() && stored_identifier(#[trigger] c[i]) is Some ==> stored_identifier(
            c[i],
        ) != stored_identifier(#[trigger] c[j])
}

/// `first_match` finds the first document that matches, and finds none only
/// where none matches.
pub proof fn lemma_first_match(c: Seq<DocumentView>, filter: DocumentView)
    ensures
        match first_match(c, filter) {
            Some(i) => 0 <= i < c.len() && is_match(filter, c[i]) && forall|j: int|
                0 <= j < i ==> !is_match(filter, #[trigger] c[j]),
            None => forall|j: int| 0 <= j < c.len() ==> !is_match(filter, #[trigger] c[j]),
        },
    decreases c.len(),
{
    if c.len() > 0 {
        let front = c.drop_last();
        lemma_first_match(front, filter);
        match first_match(front, filter) {
            Some(i) => {
                assert(front[i] == c[i]);
                assert forall|j: int| 0 <= j < i implies !is_match(filter, #[trigger] c[j]) by {
                    assert(front[j] == c[j]);
                }
            },
            None => {
                assert forall|j: int| 0 <= j < front.len() implies !is_match(
                    filter,
                    #[trigger] c[j],
                ) by {
                    assert(front[j] == c[j]);
                }
            },
        }
    }
}

/// The first document that matches is the one that `first_match` finds.
pub proof fn lemma_first_match_is(c: Seq<DocumentView>, filter: DocumentView, i: int)
    requires
        0 <= i < c.len(),
        is_match(filter, c[i]),
        forall|j: int| 0 <= j < i ==> !is_match(filter, #[trigger] c[j]),
    ensures
        first_match(c, filter) == Some(i),
{
    lemma_first_match(c, filter);
    let k = first_match(c, filter).unwrap();
    if k < i {
        assert(!is_match(filter, c[k]));
    }
    if i < k {
        assert(is_match(filter, c[i]));
    }
}

/// Where no document matches, none is found and none is delivered.
pub proof fn lemma_no_match(c: Seq<DocumentView>, filter: DocumentView)
    requires
        forall|j: int| 0 <= j < c.len() ==> !is_match(filter, #[trigger] c[j]),
    ensures
        first_match(c, filter) is None,
        all_matches(c, filter) == Seq::<DocumentView>::empty(),
    decreases c.len(),
{
    reveal(Seq::filter);
    if c.len() > 0 {
        let front = c.drop_last();
        assert forall|j: int| 0 <= j < front.len() implies !is_match(filter, #[trigger] front[j]) by {
            assert(front[j] == c[j]);
        }
        lemma_no_match(front, filter);
        assert(!is_match(filter, c[c.len() - 1]));
    }
}

/// Where exactly one document matches, it is all that a find delivers.
pub proof fn lemma_single_match(c: Seq<DocumentView>, filter: DocumentView, k: int)
    requires
        0 <= k < c.len(),
        is_match(filter, c[k]),
        forall|j: int| 0 <= j < c.len() && j != k ==> !is_match(filter, #[trigger] c[j]),
    ensures
        first_match(c, filter) == Some(k),
        all_matches(c, filter) == seq![c[k]],
    decreases c.len(),
{
    reveal(Seq::filter);
    lemma_first_match_is(c, filter, k);
    let front = c.drop_last();
    if k == c.len() - 1 {
        assert forall|j: int| 0 <= j < front.len() implies !is_match(filter, #[trigger] front[j]) by {
            assert(front[j] == c[j]);
        }
        lemma_no_match(front, filter);
        assert(Seq::<DocumentView>::empty().push(c[k]) =~= seq![c[k]]);
    } else {
        assert forall|j: int| 0 <= j < front.len() && j != k implies !is_match(
            filter,
            #[trigger] front[j],
        ) by {
            assert(front[j] == c[j]);
        }
        assert(front[k] == c[k]);
        lemma_single_match(front, filter, k);
        assert(!is_match(filter, c[c.len() - 1]));
    }
}

/// Every document matches the empty filter, so a find without a filter
/// delivers the whole collection.
pub proof fn lemma_all_match_empty_filter(c: Seq<DocumentView>)
    ensures
        all_matches(c, Seq::empty()) == c,
    decreases c.len(),
{
    reveal(Seq::filter);
    if c.len() > 0 {
        lemma_all_match_empty_filter(c.drop_last());
        assert(is_match(Seq::empty(), c.last()));
        assert(c.drop_last().push(c.last()) =~= c);
    }
}

/// The filter of one field matches the documents that hold that value in
/// that field.
pub proof fn lemma_match_one_field(name: Seq<char>, value: ValueView, document: DocumentView)
    ensures
        is_match(seq![(name, value)], document) <==> field_of(document, name) == Some(value),
{
    let filter = seq![(name, value)];
    assert(filter[0] == (name, value));
}

} // verus!
