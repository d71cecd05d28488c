//! Repositories of aggregates over a document store.
//!
//! An aggregate is a domain object with a globally unique identifier and a
//! lossless encoding as a structured document. A repository stores
//! aggregates in one collection of a document store, one document for each
//! identifier, and finds them again by identifier.
//!
//! - [`primitives`]: identifiers, the contract of an aggregate, the two
//!   contracts of a repository, and their errors.
//! - [`document`]: structured documents.
//! - [`collection`]: what a collection of documents can be asked to do, and
//!   what it then does.
//! - [`mongo`]: the repository of a MongoDB collection, as the requests
//!   that it makes and what it reads from the replies.
//! - [`laws`]: what holds of a repository whose collection does as asked.
//! - [`user`]: users, and the repository that finds one by e-mail address.
pub mod collection;
pub mod document;
pub mod laws;
pub mod mongo;
pub mod primitives;
pub mod user;
