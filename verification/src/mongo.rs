//! The repository of one collection of a MongoDB database.
//!
//! Each operation of the repository is one exchange with the database: a
//! request that says what the collection is to do, and a reply from which
//! the operation's result is read. The connection carries the request out.
use crate::collection::{
    done_answer, Connection, Operation, OperationView, Reply, Request, RequestView,
};
use crate::document::{kind_name, Document, DocumentView, Value, ValueView};
use crate::primitives::{
    decoded, find_result, identifier_field, read_view, AggregateReadRepository,
    AggregateWriteRepository, RepositoryReadError, RepositoryWriteError, RootAggregate,
    WriteErrorView, ID,
};
use vstd::prelude::*;

verus! {

/// A collection of a database, and the connection through which it is
/// reached. The connection is shared: the repository does not own what is
/// behind it, and holds no documents itself.
pub struct Repository<C> {
    pub db: String,
    pub collection: String,
    pub client: C,
}

/// The filter that matches the documents of one identifier: the identifier
/// field holds the canonical form of `id`.
pub open spec fn identifier_filter(id: ID) -> DocumentView {
    seq![(identifier_field(), ValueView::Text(id.canonical()))]
}

/// The filter that matches every document.
pub open spec fn no_filter() -> DocumentView {
    Seq::empty()
}

/// What `store` asks of the collection for an identifier and an encoding,
/// or why it asks nothing: an upsert of the encoding under the identifier
/// where the encoding is a document, and else a failure.
pub open spec fn store_plan(id: ID, encoded: Result<ValueView, Seq<char>>) -> Result<
    OperationView,
    WriteErrorView,
> {
    match encoded {
        Ok(ValueView::Document(d)) => Ok(
            OperationView::ReplaceOne { filter: identifier_filter(id), replacement: d, upsert: true },
        ),
        Ok(other) => Err(
            WriteErrorView::FailedToPersist {
                cause: "bson of encoded aggregate was: "@ + kind_name(other),
            },
        ),
        Err(reason) => Err(
            WriteErrorView::FailedToPersist {
                cause: "failed to encode aggregate as bson: "@ + reason,
            },
        ),
    }
}

/// What `find` asks of the collection: the first document of `id`.
pub open spec fn find_plan(id: ID) -> OperationView {
    OperationView::FindOne { filter: identifier_filter(id) }
}

/// What `find_all` asks of the collection: every document.
pub open spec fn find_all_plan() -> OperationView {
    OperationView::Find { filter: no_filter() }
}

/// What `clear` asks of the collection: to drop every document.
pub open spec fn clear_plan() -> OperationView {
    OperationView::Drop
}

/// What `store` returns for the reply to its request.
pub open spec fn store_result(reply: Result<(), Seq<char>>) -> Result<(), WriteErrorView> {
    match reply {
        Ok(_) => Ok(()),
        Err(reason) => Err(
            WriteErrorView::FailedToPersist { cause: "failed to update collection: "@ + reason },
        ),
    }
}

/// What `clear` returns for the reply to its request.
pub open spec fn clear_result(reply: Result<(), Seq<char>>) -> Result<(), WriteErrorView> {
    match reply {
        Ok(_) => Ok(()),
        Err(reason) => Err(WriteErrorView::FailedToPersist { cause: reason }),
    }
}

/// The document of a reply to a find-one request: none where the collection
/// delivered none, and none where the request failed.
pub open spec fn delivered_one(reply: Result<Option<Document>, String>) -> Option<DocumentView> {
    match reply {
        Ok(Some(d)) => Some(d@),
        _ => None,
    }
}

/// The documents among the items of a cursor, in their order.
pub open spec fn retrieved(items: Seq<Result<Document, String>>) -> Seq<DocumentView>
    decreases items.len(),
{
    if items.len() == 0 {
        Seq::empty()
    } else {
        let front = retrieved(items.drop_last());
        match items.last() {
            Ok(d) => front.push(d@),
            Err(_) => front,
        }
    }
}

/// The documents of a reply to a find request: none where the request
/// failed.
pub open spec fn delivered_all(reply: Result<Vec<Result<Document, String>>, String>) -> Seq<
    DocumentView,
> {
    match reply {
        Ok(items) => retrieved(items@),
        Err(_) => Seq::empty(),
    }
}

/// What the reply to a replace-one or a drop holds.
pub open spec fn done_view(reply: Result<(), String>) -> Result<(), Seq<char>> {
    match reply {
        Ok(_) => Ok(()),
        Err(reason) => Err(reason@),
    }
}

/// What an encoder returned.
pub open spec fn encoded_view(encoded: Result<Value, String>) -> Result<ValueView, Seq<char>> {
    match encoded {
        Ok(value) => Ok(value@),
        Err(reason) => Err(reason@),
    }
}

/// What a write returned.
pub open spec fn written_view(r: Result<(), RepositoryWriteError>) -> Result<(), WriteErrorView> {
    match r {
        Ok(_) => Ok(()),
        Err(e) => Err(e@),
    }
}

/// What a planned request holds, or why none was planned.
pub open spec fn planned_view(r: Result<Request, RepositoryWriteError>) -> Result<
    RequestView,
    WriteErrorView,
> {
    match r {
        Ok(request) => Ok(request@),
        Err(e) => Err(e@),
    }
}

/// The request that asks the collection `collection` of the database `db`
/// for a planned operation, where one was planned.
pub open spec fn addressed(
    db: Seq<char>,
    collection: Seq<char>,
    plan: Result<OperationView, WriteErrorView>,
) -> Result<RequestView, WriteErrorView> {
    match plan {
        Ok(operation) => Ok(RequestView { db, collection, operation }),
        Err(e) => Err(e),
    }
}

/// What the aggregates of a vector hold, in their order.
spec fn views<T: RootAggregate>(aggregates: Seq<T>) -> Seq<T::V> {
    aggregates.map_values(|a: T| a@)
}

/// What `store` returns for the reply to its request: success where the
/// collection carried it out, and else the failure that it reported.
pub fn store_outcome(reply: Result<(), String>) -> (r: Result<(), RepositoryWriteError>)
    ensures
        written_view(r) == store_result(done_view(reply)),
{
    match reply {
        Ok(_) => Ok(()),
        Err(reason) => Err(
            RepositoryWriteError::FailedToPersist {
                cause: String::from_str("failed to update collection: ").concat(reason.as_str()),
            },
        ),
    }
}

/// What `clear` returns for the reply to its request: success where the
/// collection carried it out, and else the failure that it reported.
pub fn clear_outcome(reply: Result<(), String>) -> (r: Result<(), RepositoryWriteError>)
    ensures
        written_view(r) == clear_result(done_view(reply)),
{
    match reply {
        Ok(_) => Ok(()),
        Err(reason) => Err(RepositoryWriteError::FailedToPersist { cause: reason }),
    }
}

/// What `find` returns for the reply to its request: the aggregate that the
/// delivered document decodes to. Where none was delivered, where the
/// request failed, and where the document does not decode to a `T`, the
/// identifier is unknown.
pub fn find_outcome<T: RootAggregate>(id: &ID, reply: Result<Option<Document>, String>) -> (r:
    Result<T, RepositoryReadError>)
    ensures
        read_view(r) == find_result::<T>(*id, delivered_one(reply)),
{
    match reply {
        Ok(Some(document)) => match T::decode(&document) {
            Ok(aggregate) => Ok(aggregate),
            Err(_) => Err(RepositoryReadError::UnknownEntity(id.to_string())),
        },
        _ => Err(RepositoryReadError::UnknownEntity(id.to_string())),
    }
}

/// What `find_all` returns for the reply to its request: the aggregates
/// that the delivered documents decode to, in the order of delivery. A
/// document that could not be retrieved, or that does not decode to a `T`,
/// is left out; a request that failed delivers nothing.
pub fn find_all_outcome<T: RootAggregate>(
    reply: Result<Vec<Result<Document, String>>, String>,
) -> (r: Vec<T>)
    ensures
        r@.len() == decoded::<T>(delivered_all(reply)).len(),
        forall|i: int|
            0 <= i < r@.len() ==> (#[trigger] r@[i])@ == decoded::<T>(delivered_all(reply))[i],
{
    let mut results: Vec<T> = Vec::new();
    assert(views::<T>(results@) =~= Seq::empty());
    match &reply {
        Ok(items) => {
            let n = items.len();
            let mut i: usize = 0;
            assert(items@.take(0) =~= Seq::empty());
            while i < n
                invariant
                    i <= n,
                    n == items@.len(),
                    views::<T>(results@) == decoded::<T>(retrieved(items@.take(i as int))),
                decreases n - i,
            {
                let ghost before = retrieved(items@.take(i as int));
                let ghost seen = views::<T>(results@);
                proof {
                    let next = items@.take(i + 1);
                    assert(next.drop_last() =~= items@.take(i as int));
                    assert(next.last() == items@[i as int]);
                }
                match &items[i] {
                    Ok(document) => {
                        proof {
                            assert(before.push(document@).drop_last() =~= before);
                        }
                        match T::decode(document) {
                            Ok(aggregate) => {
                                results.push(aggregate);
                                assert(views::<T>(results@) =~= seen.push(aggregate@));
                            },
                            Err(_) => {},
                        }
                    },
                    Err(_) => {},
                }
                i += 1;
            }
            assert(items@.take(n as int) =~= items@);
        },
        Err(_) => {},
    }
    assert(views::<T>(results@).len() == results@.len());
    assert forall|i: int| 0 <= i < results@.len() implies (#[trigger] results@[i])@ == decoded::<T>(
        delivered_all(reply),
    )[i] by {
        assert(views::<T>(results@)[i] == results@[i]@);
    }
    results
}

impl<C> Repository<C> {
    /// The request that asks this repository's collection for `operation`.
    fn request(&self, operation: Operation) -> (request: Request)
        ensures
            request@ == (RequestView {
                db: self.db@,
                collection: self.collection@,
                operation: operation@,
            }),
    {
        Request { db: self.db.clone(), collection: self.collection.clone(), operation }
    }

    /// What `store` asks of the collection, for an aggregate's identifier
    /// and what its encoder returned: an upsert of the encoding under the
    /// identifier. Where the encoder failed, and where the encoding is no
    /// document, nothing is asked and the store has failed.
    pub fn store_request_for(&self, id: &ID, encoded: Result<Value, String>) -> (r: Result<
        Request,
        RepositoryWriteError,
    >)
        ensures
            planned_view(r) == addressed(
                self.db@,
                self.collection@,
                store_plan(*id, encoded_view(encoded)),
            ),
    {
        match encoded {
            Ok(Value::Document(document)) => {
                let mut filter = Document::new();
                filter.insert(String::from_str("id"), Value::Text(id.to_string()));
                assert(filter@ =~= identifier_filter(*id));
                Ok(self.request(Operation::ReplaceOne { filter, replacement: document, upsert: true }))
            },
            Ok(other) => Err(
                RepositoryWriteError::FailedToPersist {
                    cause: String::from_str("bson of encoded aggregate was: ").concat(other.kind()),
                },
            ),
            Err(reason) => Err(
                RepositoryWriteError::FailedToPersist {
                    cause: String::from_str("failed to encode aggregate as bson: ").concat(
                        reason.as_str(),
                    ),
                },
            ),
        }
    }

    /// What `store` asks of the collection for an aggregate: an upsert of
    /// its encoding under its identifier. An aggregate that has no encoding,
    /// or whose encoding is no document, is not stored.
    pub fn store_request<T: RootAggregate>(&self, aggregate: &T) -> (r: Result<
        Request,
        RepositoryWriteError,
    >)
        ensures
            match T::encoding(aggregate@) {
                Some(value) => planned_view(r) == addressed(
                    self.db@,
                    self.collection@,
                    store_plan(T::identity(aggregate@), Ok(value)),
                ),
                None => exists|reason: Seq<char>|
                    planned_view(r) == addressed(
                        self.db@,
                        self.collection@,
                        #[trigger] store_plan(T::identity(aggregate@), Err(reason)),
                    ),
            },
    {
        let encoded = aggregate.encode();
        self.store_request_for(aggregate.id(), encoded)
    }

    /// What `clear` asks of the collection: to drop every document.
    pub fn clear_request(&self) -> (request: Request)
        ensures
            request@ == (RequestView {
                db: self.db@,
                collection: self.collection@,
                operation: clear_plan(),
            }),
    {
        self.request(Operation::Drop)
    }

    /// What `find` asks of the collection: the document of the identifier.
    pub fn find_request(&self, id: &ID) -> (request: Request)
        ensures
            request@ == (RequestView {
                db: self.db@,
                collection: self.collection@,
                operation: find_plan(*id),
            }),
    {
        let mut filter = Document::new();
        filter.insert(String::from_str("id"), Value::Text(id.to_string()));
        assert(filter@ =~= identifier_filter(*id));
        self.request(Operation::FindOne { filter })
    }

    /// What `find_all` asks of the collection: every document.
    pub fn find_all_request(&self) -> (request: Request)
        ensures
            request@ == (RequestView {
                db: self.db@,
                collection: self.collection@,
                operation: find_all_plan(),
            }),
    {
        self.request(Operation::Find { filter: Document::new() })
    }
}

impl<RA: RootAggregate, C: Connection> AggregateWriteRepository<RA> for Repository<C> {
    /// Removes every document of the collection: the result is what
    /// [`clear_outcome`] makes of a reply of the connection to the request
    /// of [`Repository::clear_request`].
    fn clear(&mut self) -> (r: Result<(), RepositoryWriteError>)
        ensures
            *final(self) == *old(self),
            exists|request: Request, reply: Reply|
                request@ == (RequestView {
                    db: old(self).db@,
                    collection: old(self).collection@,
                    operation: clear_plan(),
                }) && #[trigger] call_ensures(C::perform, (&old(self).client, request), reply)
                    && written_view(r) == clear_result(done_answer(reply)),
    {
        Repository::clear(self)
    }

    /// Stores the aggregate: sends the request of
    /// [`Repository::store_request`], and returns what [`store_outcome`]
    /// makes of the reply. Where no request is planned, none is sent.
    fn store(&mut self, aggregate: RA) -> (r: Result<(), RepositoryWriteError>)
        ensures
            RA::encoding(aggregate@) matches Some(value) ==> match store_plan(
                RA::identity(aggregate@),
                Ok(value),
            ) {
                Ok(_) => exists|reply: Result<(), Seq<char>>|
                    written_view(r) == #[trigger] store_result(reply),
                Err(e) => written_view(r) == Err::<(), WriteErrorView>(e),
            },
    {
        match self.store_request(&aggregate) {
            Ok(request) => {
                let reply = self.client.perform(request).done();
                let ghost answer = done_view(reply);
                let r = store_outcome(reply);
                assert(written_view(r) == store_result(answer));
                r
            },
            Err(e) => Err(e),
        }
    }
}

impl<RA: RootAggregate, C: Connection> AggregateReadRepository<RA> for Repository<C> {
    /// The aggregate with the given identifier: sends the request of
    /// [`Repository::find_request`], and returns what [`find_outcome`] makes
    /// of the reply.
    fn find(&self, id: &ID) -> (r: Result<RA, RepositoryReadError>) {
        let reply = self.client.perform(self.find_request(id)).one();
        let ghost delivered = delivered_one(reply);
        let r = find_outcome::<RA>(id, reply);
        assert(read_view(r) == find_result::<RA>(*id, delivered));
        r
    }

    /// Every aggregate of type `RA` of the collection: sends the request of
    /// [`Repository::find_all_request`], and returns what
    /// [`find_all_outcome`] makes of the reply.
    fn find_all(&self) -> (r: Vec<RA>) {
        let reply = self.client.perform(self.find_all_request()).many();
        let ghost delivered = delivered_all(reply);
        let r = find_all_outcome::<RA>(reply);
        assert(r@.len() == decoded::<RA>(delivered).len());
        r
    }
}

impl<C: Connection> Repository<C> {
    /// Removes every document of the collection, whatever the type of the
    /// aggregates that it holds: sends the request of
    /// [`Repository::clear_request`] through the connection, and returns
    /// what [`clear_outcome`] makes of the reply. The repository itself
    /// stays as it is.
    pub fn clear(&mut self) -> (r: Result<(), RepositoryWriteError>)
        ensures
            *final(self) == *old(self),
            exists|request: Request, reply: Reply|
                request@ == (RequestView {
                    db: old(self).db@,
                    collection: old(self).collection@,
                    operation: clear_plan(),
                }) && #[trigger] call_ensures(C::perform, (&old(self).client, request), reply)
                    && written_view(r) == clear_result(done_answer(reply)),
    {
        let request = self.clear_request();
        let ghost sent = request;
        let reply = self.client.perform(request);
        let ghost answered = reply;
        let r = clear_outcome(reply.done());
        assert(call_ensures(C::perform, (&self.client, sent), answered));
        assert(written_view(r) == clear_result(done_answer(answered)));
        r
    }
}

} // verus!
