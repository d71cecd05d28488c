//! Identifiers, aggregates, and the contracts of the repositories that hold
//! them.
use crate::document::{field_of, Document, DocumentView, Value, ValueView};
use vstd::prelude::*;

verus! {

/// The identifier of an aggregate: 128 bits, unique over all aggregates.
#[derive(Debug, Clone, Copy, PartialEq, Eq, Hash, Structural)]
pub struct ID {
    pub value: u128,
}

/// The hexadecimal digit, in lower case, of a number below 16.
pub open spec fn hex_digit(n: u128) -> char {
    if n < 10 {
        (n + 48) as u8 as char
    } else {
        (n + 87) as u8 as char
    }
}

/// The `k`-th group of four bits of `value`, counted from the most
/// significant one, for `k` from 0 to 31.
pub open spec fn nibble(value: u128, k: int) -> u128 {
    (value >> ((4 * (31 - k)) as u128)) & 0xf
}

/// Whether position `i` of a canonical form holds a hyphen.
pub open spec fn is_hyphen_position(i: int) -> bool {
    i == 8 || i == 13 || i == 18 || i == 23
}

/// Which group of four bits the digit at position `i` of a canonical form
/// renders, where that position holds a digit.
pub open spec fn digit_index(i: int) -> int {
    if i < 8 {
        i
    } else if i < 13 {
        i - 1
    } else if i < 18 {
        i - 2
    } else if i < 23 {
        i - 3
    } else {
        i - 4
    }
}

/// The canonical form of an identifier: its 32 hexadecimal digits in lower
/// case, most significant first, in groups of 8, 4, 4, 4 and 12 digits with
/// a hyphen between two groups.
pub open spec fn canonical_form(value: u128) -> Seq<char> {
    Seq::new(
        36,
        |i: int|
            if is_hyphen_position(i) {
                '-'
            } else {
                hex_digit(nibble(value, digit_index(i)))
            },
    )
}

/// Two numbers below 16 with the same digit are the same number.
proof fn lemma_hex_digit_injective(a: u128, b: u128)
    requires
        a < 16,
        b < 16,
        hex_digit(a) == hex_digit(b),
    ensures
        a == b,
{
}

/// Two identifiers with the same canonical form have the same `k`-th group
/// of four bits.
proof fn lemma_nibbles_equal(a: u128, b: u128, k: int)
    requires
        0 <= k < 32,
        canonical_form(a) == canonical_form(b),
    ensures
        nibble(a, k) == nibble(b, k),
{
    let i = if k < 8 {
        k
    } else if k < 12 {
        k + 1
    } else if k < 16 {
        k + 2
    } else if k < 20 {
        k + 3
    } else {
        k + 4
    };
    assert(digit_index(i) == k);
    assert(canonical_form(a)[i] == hex_digit(nibble(a, k)));
    assert(canonical_form(b)[i] == hex_digit(nibble(b, k)));
    let high_a = a >> ((4 * (31 - k)) as u128);
    let high_b = b >> ((4 * (31 - k)) as u128);
    assert(high_a & 0xf < 16) by (bit_vector);
    assert(high_b & 0xf < 16) by (bit_vector);
    lemma_hex_digit_injective(nibble(a, k), nibble(b, k));
}

/// Two identifiers with the same canonical form are the same identifier.
pub proof fn lemma_canonical_form_injective(a: u128, b: u128)
    requires
        canonical_form(a) == canonical_form(b),
    ensures
        a == b,
{
    lemma_nibbles_equal(a, b, 0);
    lemma_nibbles_equal(a, b, 1);
    lemma_nibbles_equal(a, b, 2);
    lemma_nibbles_equal(a, b, 3);
    lemma_nibbles_equal(a, b, 4);
    lemma_nibbles_equal(a, b, 5);
    lemma_nibbles_equal(a, b, 6);
    lemma_nibbles_equal(a, b, 7);
    lemma_nibbles_equal(a, b, 8);
    lemma_nibbles_equal(a, b, 9);
    lemma_nibbles_equal(a, b, 10);
    lemma_nibbles_equal(a, b, 11);
    lemma_nibbles_equal(a, b, 12);
    lemma_nibbles_equal(a, b, 13);
    lemma_nibbles_equal(a, b, 14);
    lemma_nibbles_equal(a, b, 15);
    lemma_nibbles_equal(a, b, 16);
    lemma_nibbles_equal(a, b, 17);
    lemma_nibbles_equal(a, b, 18);
    lemma_nibbles_equal(a, b, 19);
    lemma_nibbles_equal(a, b, 20);
    lemma_nibbles_equal(a, b, 21);
    lemma_nibbles_equal(a, b, 22);
    lemma_nibbles_equal(a, b, 23);
    lemma_nibbles_equal(a, b, 24);
    lemma_nibbles_equal(a, b, 25);
    lemma_nibbles_equal(a, b, 26);
    lemma_nibbles_equal(a, b, 27);
    lemma_nibbles_equal(a, b, 28);
    lemma_nibbles_equal(a, b, 29);
    lemma_nibbles_equal(a, b, 30);
    lemma_nibbles_equal(a, b, 31);
    assert(a == b) by (bit_vector)
        requires
            (a >> 124) & 0xf == (b >> 124) & 0xf,
            (a >> 120) & 0xf == (b >> 120) & 0xf,
            (a >> 116) & 0xf == (b >> 116) & 0xf,
            (a >> 112) & 0xf == (b >> 112) & 0xf,
            (a >> 108) & 0xf == (b >> 108) & 0xf,
            (a >> 104) & 0xf == (b >> 104) & 0xf,
            (a >> 100) & 0xf == (b >> 100) & 0xf,
            (a >> 96) & 0xf == (b >> 96) & 0xf,
            (a >> 92) & 0xf == (b >> 92) & 0xf,
            (a >> 88) & 0xf == (b >> 88) & 0xf,
            (a >> 84) & 0xf == (b >> 84) & 0xf,
            (a >> 80) & 0xf == (b >> 80) & 0xf,
            (a >> 76) & 0xf == (b >> 76) & 0xf,
            (a >> 72) & 0xf == (b >> 72) & 0xf,
            (a >> 68) & 0xf == (b >> 68) & 0xf,
            (a >> 64) & 0xf == (b >> 64) & 0xf,
            (a >> 60) & 0xf == (b >> 60) & 0xf,
            (a >> 56) & 0xf == (b >> 56) & 0xf,
            (a >> 52) & 0xf == (b >> 52) & 0xf,
            (a >> 48) & 0xf == (b >> 48) & 0xf,
            (a >> 44) & 0xf == (b >> 44) & 0xf,
            (a >> 40) & 0xf == (b >> 40) & 0xf,
            (a >> 36) & 0xf == (b >> 36) & 0xf,
            (a >> 32) & 0xf == (b >> 32) & 0xf,
            (a >> 28) & 0xf == (b >> 28) & 0xf,
            (a >> 24) & 0xf == (b >> 24) & 0xf,
            (a >> 20) & 0xf == (b >> 20) & 0xf,
            (a >> 16) & 0xf == (b >> 16) & 0xf,
            (a >> 12) & 0xf == (b >> 12) & 0xf,
            (a >> 8) & 0xf == (b >> 8) & 0xf,
            (a >> 4) & 0xf == (b >> 4) & 0xf,
            (a >> 0) & 0xf == (b >> 0) & 0xf,
    ;
}

/// Whether `value` has the version and variant bits of a random identifier:
/// version 4 in the thirteenth hexadecimal digit, and `10` as the two
/// highest bits of the seventeenth.
pub open spec fn is_random_version(value: u128) -> bool {
    value & 0x0000_0000_0000_f000_c000_0000_0000_0000 == 0x0000_0000_0000_4000_8000_0000_0000_0000
}

/// What parsing a text as an identifier gives: the 128 bits of the
/// identifier that the text is a rendering of, if it is one.
pub uninterp spec fn parsed_identifier(text: Seq<char>) -> Option<u128>;

/// Calls `uuid::Uuid::new_v4`, which draws 122 bits from the operating
/// system's random number generator and sets the version and variant bits
/// of a random identifier. Nothing else is claimed of the bits. `new_v4`
/// panics where the operating system hands out no random bytes.
#[verifier::external_body]
fn random_identifier() -> (value: u128)
    ensures
        is_random_version(value),
{
    uuid::Uuid::new_v4().as_u128()
}

/// Calls the `Display` formatting of `uuid::Uuid`, which writes the
/// hyphenated lower-case form: the claim is that this is `canonical_form`.
#[verifier::external_body]
fn identifier_text(value: u128) -> (text: String)
    ensures
        text@ == canonical_form(value),
{
    uuid::Uuid::from_u128(value).to_string()
}

/// Calls `uuid::Uuid::parse_str`. The result is named, not stated, but for
/// one fact: the canonical form of an identifier parses as that identifier.
#[verifier::external_body]
fn identifier_from_text(text: &str) -> (value: Option<u128>)
    ensures
        value == parsed_identifier(text@),
        forall|v: u128| text@ == canonical_form(v) ==> value == Some(v),
{
    match uuid::Uuid::parse_str(text) {
        Ok(id) => Some(id.as_u128()),
        Err(_) => None,
    }
}

impl ID {
    /// The canonical form of this identifier, by which a document store
    /// finds it.
    pub open spec fn canonical(self) -> Seq<char> {
        canonical_form(self.value)
    }

    /// The identifier with the given 128 bits.
    pub fn from_u128(value: u128) -> (id: ID)
        ensures
            id.value == value,
    {
        ID { value }
    }

    /// The 128 bits of this identifier.
    pub fn as_u128(&self) -> (value: u128)
        ensures
            value == self.value,
    {
        self.value
    }

    /// A fresh random identifier.
    pub fn new_v4() -> (id: ID)
        ensures
            is_random_version(id.value),
    {
        ID { value: random_identifier() }
    }

    /// The canonical form of this identifier.
    pub fn to_string(&self) -> (text: String)
        ensures
            text@ == self.canonical(),
    {
        identifier_text(self.value)
    }

    /// The identifier that `text` is a rendering of, if it is one. The
    /// canonical form of an identifier is a rendering of it; there are
    /// others, with capital letters or without hyphens.
    pub fn parse_str(text: &str) -> (id: Option<ID>)
        ensures
            id == match parsed_identifier(text@) {
                Some(value) => Some(ID { value }),
                None => None,
            },
            forall|other: ID| text@ == other.canonical() ==> id == Some(other),
    {
        let parsed = identifier_from_text(text);
        assert forall|other: ID| text@ == other.canonical() implies parsed == Some(other.value) by {
            assert(text@ == canonical_form(other.value));
        }
        match parsed {
            Some(value) => Some(ID { value }),
            None => None,
        }
    }

    /// `parsed` where `text` is its canonical form, and nothing where it is
    /// another rendering or none.
    pub fn canonical_only(text: &str, parsed: Option<ID>) -> (id: Option<ID>)
        ensures
            id == match parsed {
                Some(found) => if found.canonical() == text@ {
                    Some(found)
                } else {
                    None
                },
                None => None,
            },
    {
        match parsed {
            Some(found) => {
                let canonical = found.to_string();
                let given = text.to_owned();
                if canonical == given {
                    Some(found)
                } else {
                    None
                }
            },
            None => None,
        }
    }

    /// The identifier whose canonical form `text` is, if it is the
    /// canonical form of one. A document store finds an identifier by its
    /// canonical form and by no other rendering.
    pub fn parse_canonical(text: &str) -> (id: Option<ID>)
        ensures
            id == identifier_of(text@),
    {
        let id = ID::canonical_only(text, ID::parse_str(text));
        proof {
            if exists|value: u128| canonical_form(value) == text@ {
                let value = choose|value: u128| canonical_form(value) == text@;
                assert(text@ == (ID { value }).canonical());
            }
            if id is Some {
                assert(canonical_form(id.unwrap().value) == text@);
                lemma_identifier_of(id.unwrap());
            }
        }
        id
    }
}

/// The identifier whose canonical form `text` is, if it is the canonical
/// form of one.
pub open spec fn identifier_of(text: Seq<char>) -> Option<ID> {
    if exists|value: u128| canonical_form(value) == text {
        Some(ID { value: choose|value: u128| canonical_form(value) == text })
    } else {
        None
    }
}

/// An identifier is the one whose canonical form its canonical form is.
pub proof fn lemma_identifier_of(id: ID)
    ensures
        identifier_of(id.canonical()) == Some(id),
{
    assert(canonical_form(id.value) == id.canonical());
    let value = choose|value: u128| canonical_form(value) == id.canonical();
    lemma_canonical_form_injective(value, id.value);
}

/// Two identifiers with the same canonical form are the same identifier.
pub proof fn lemma_canonical_injective(a: ID, b: ID)
    requires
        a.canonical() == b.canonical(),
    ensures
        a == b,
{
    lemma_canonical_form_injective(a.value, b.value);
}

/// The name of the field of a stored document that holds the canonical form
/// of the aggregate's identifier.
pub open spec fn identifier_field() -> Seq<char> {
    "id"@
}

/// A root aggregate: the single member of a cluster of associated objects
/// that outside objects may hold references to, and the unit of storage.
///
/// It has an identifier, and a lossless encoding as a structured document
/// that holds the canonical form of the identifier in its identifier field.
pub trait RootAggregate: Clone + core::fmt::Debug + View + Sized {
    /// The identifier of the aggregate `a`.
    spec fn identity(a: Self::V) -> ID;

    /// The encoding of the aggregate `a`, if it has one.
    spec fn encoding(a: Self::V) -> Option<ValueView>;

    /// The aggregate that the document `d` decodes to, if it decodes to one.
    spec fn decoding(d: DocumentView) -> Option<Self::V>;

    /// The globally unique identifier of this aggregate.
    fn id(&self) -> (id: &ID)
        ensures
            *id == Self::identity(self@),
    ;

    /// Encodes this aggregate, or says why it cannot be encoded.
    fn encode(&self) -> (r: Result<Value, String>)
        ensures
            match r {
                Ok(value) => Self::encoding(self@) == Some(value@),
                Err(_) => Self::encoding(self@) is None,
            },
    ;

    /// Decodes a document, or says why it does not hold an aggregate of
    /// this type.
    fn decode(document: &Document) -> (r: Result<Self, String>)
        ensures
            match r {
                Ok(aggregate) => Self::decoding(document@) == Some(aggregate@),
                Err(_) => Self::decoding(document@) is None,
            },
    ;

    /// Decoding the document that an aggregate encodes to gives the
    /// aggregate back.
    proof fn round_trip(a: Self::V)
        ensures
            Self::encoding(a) matches Some(ValueView::Document(d)) ==> Self::decoding(d) == Some(a),
    ;

    /// The document that an aggregate encodes to holds the canonical form
    /// of its identifier in the identifier field.
    proof fn identifier_is_stored(a: Self::V)
        ensures
            Self::encoding(a) matches Some(ValueView::Document(d)) ==> field_of(
                d,
                identifier_field(),
            ) == Some(ValueView::Text(Self::identity(a).canonical())),
    ;
}

/// Why a repository did not hand out an aggregate.
#[derive(Debug, Clone, PartialEq, Eq)]
pub enum RepositoryReadError {
    /// Nothing matches. Raised only by contracts that extend the base one.
    NoEventsFound,
    /// No document matches the identifier, or the one that matches does not
    /// decode to an aggregate of the type asked for.
    UnknownEntity(String),
    /// More than one document matches a key that should single one out.
    /// Raised only by contracts that extend the base one.
    MultipleEntitiesFound(String),
}

/// Why a repository did not write.
#[derive(Debug, Clone, PartialEq, Eq)]
pub enum RepositoryWriteError {
    /// The aggregate has no encoding, its encoding is no document, or the
    /// store refused the operation.
    FailedToPersist { cause: String },
}

/// What a [`RepositoryReadError`] holds.
pub ghost enum ReadErrorView {
    NoEventsFound,
    UnknownEntity(Seq<char>),
    MultipleEntitiesFound(Seq<char>),
}

/// What a [`RepositoryWriteError`] holds.
pub ghost enum WriteErrorView {
    FailedToPersist { cause: Seq<char> },
}

impl View for RepositoryReadError {
    type V = ReadErrorView;

    open spec fn view(&self) -> ReadErrorView {
        match self {
            RepositoryReadError::NoEventsFound => ReadErrorView::NoEventsFound,
            RepositoryReadError::UnknownEntity(key) => ReadErrorView::UnknownEntity(key@),
            RepositoryReadError::MultipleEntitiesFound(key) => ReadErrorView::MultipleEntitiesFound(
                key@,
            ),
        }
    }
}

impl View for RepositoryWriteError {
    type V = WriteErrorView;

    open spec fn view(&self) -> WriteErrorView {
        match self {
            RepositoryWriteError::FailedToPersist { cause } => WriteErrorView::FailedToPersist {
                cause: cause@,
            },
        }
    }
}

/// The message of a read error.
pub open spec fn read_error_message(e: ReadErrorView) -> Seq<char> {
    match e {
        ReadErrorView::NoEventsFound => "no events were found"@,
        ReadErrorView::UnknownEntity(key) => "entity `"@ + key + "` was not found"@,
        ReadErrorView::MultipleEntitiesFound(key) => "multiple entities found for `"@ + key + "`"@,
    }
}

/// The message of a write error.
pub open spec fn write_error_message(e: WriteErrorView) -> Seq<char> {
    match e {
        WriteErrorView::FailedToPersist { cause } => "failed to persist entity: `"@ + cause + "`"@,
    }
}

impl RepositoryReadError {
    /// The message of this error.
    pub fn to_string(&self) -> (message: String)
        ensures
            message@ == read_error_message(self@),
    {
        match self {
            RepositoryReadError::NoEventsFound => String::from_str("no events were found"),
            RepositoryReadError::UnknownEntity(key) => String::from_str("entity `").concat(
                key.as_str(),
            ).concat("` was not found"),
            RepositoryReadError::MultipleEntitiesFound(key) => String::from_str(
                "multiple entities found for `",
            ).concat(key.as_str()).concat("`"),
        }
    }
}

impl RepositoryWriteError {
    /// The message of this error.
    pub fn to_string(&self) -> (message: String)
        ensures
            message@ == write_error_message(self@),
    {
        match self {
            RepositoryWriteError::FailedToPersist { cause } => String::from_str(
                "failed to persist entity: `",
            ).concat(cause.as_str()).concat("`"),
        }
    }
}

/// Whether the aggregate `a` encodes to a structured document, as a stored
/// aggregate must.
pub open spec fn encodes_to_document<T: RootAggregate>(a: T::V) -> bool {
    T::encoding(a) matches Some(ValueView::Document(_))
}

/// What `find` returns for an identifier and the document that the
/// collection delivered for it, if it delivered one.
pub open spec fn find_result<T: RootAggregate>(id: ID, delivered: Option<DocumentView>) -> Result<
    T::V,
    ReadErrorView,
> {
    match delivered {
        Some(d) => match T::decoding(d) {
            Some(a) => Ok(a),
            None => Err(ReadErrorView::UnknownEntity(id.canonical())),
        },
        None => Err(ReadErrorView::UnknownEntity(id.canonical())),
    }
}

/// The aggregates of type `T` among `documents`, in their order: each
/// document that decodes, decoded.
pub open spec fn decoded<T: RootAggregate>(documents: Seq<DocumentView>) -> Seq<T::V>
    decreases documents.len(),
{
    if documents.len() == 0 {
        Seq::empty()
    } else {
        let front = decoded::<T>(documents.drop_last());
        match T::decoding(documents.last()) {
            Some(a) => front.push(a),
            None => front,
        }
    }
}

/// What a read of one aggregate returned.
pub open spec fn read_view<T: View>(r: Result<T, RepositoryReadError>) -> Result<
    T::V,
    ReadErrorView,
> {
    match r {
        Ok(aggregate) => Ok(aggregate@),
        Err(e) => Err(e@),
    }
}

/// The write side of a repository of aggregates of type `T`.
pub trait AggregateWriteRepository<T: RootAggregate> {
    /// Stores the aggregate: replaces the document of its identifier where
    /// the collection holds one, and adds a document where it holds none.
    /// An aggregate that does not encode to a document is never stored.
    fn store(&mut self, aggregate: T) -> (r: Result<(), RepositoryWriteError>)
        ensures
            !encodes_to_document::<T>(aggregate@) ==> r is Err,
    ;

    /// Removes every document of the collection.
    fn clear(&mut self) -> (r: Result<(), RepositoryWriteError>);
}

/// The read side of a repository of aggregates of type `T`.
pub trait AggregateReadRepository<T: RootAggregate> {
    /// The aggregate with the given identifier: the one that the document
    /// of the identifier decodes to. The only error is `UnknownEntity` with
    /// the canonical form of the identifier: for an identifier without a
    /// document, and for one whose document does not decode to a `T`.
    fn find(&self, id: &ID) -> (r: Result<T, RepositoryReadError>)
        ensures
            exists|delivered: Option<DocumentView>|
                read_view(r) == #[trigger] find_result::<T>(*id, delivered),
    ;

    /// Every aggregate of type `T` that the collection holds, in the order
    /// of the store: each document that decodes to a `T`, decoded.
    /// Documents that do not decode to a `T` are left out.
    fn find_all(&self) -> (r: Vec<T>)
        ensures
            exists|delivered: Seq<DocumentView>|
                r@.len() == (#[trigger] decoded::<T>(delivered)).len() && forall|i: int|
                    0 <= i < r@.len() ==> (#[trigger] r@[i])@ == decoded::<T>(delivered)[i],
    ;
}

} // verus!
