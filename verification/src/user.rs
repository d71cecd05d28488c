//! Users: an aggregate with a name and an e-mail address, and the
//! repository contract that finds one by its address.
use crate::collection::Connection;
use crate::document::{
    field_of, inserted, lemma_inserted, Document, DocumentView, Value, ValueView,
};
use crate::mongo::Repository;
use crate::primitives::{
    decoded, identifier_field, identifier_of, is_random_version, lemma_identifier_of,
    read_view, AggregateReadRepository, ReadErrorView, RepositoryReadError, RootAggregate, ID,
};
use vstd::prelude::*;

verus! {

/// A user.
#[derive(Debug, Clone, PartialEq, Eq)]
pub struct User {
    pub id: ID,
    pub name: String,
    pub email: String,
}

/// What a [`User`] holds.
pub ghost struct UserView {
    pub id: ID,
    pub name: Seq<char>,
    pub email: Seq<char>,
}

impl View for User {
    type V = UserView;

    open spec fn view(&self) -> UserView {
        UserView { id: self.id, name: self.name@, email: self.email@ }
    }
}

/// The document that a user encodes to: its identifier in canonical form,
/// its name and its e-mail address, each as text, in this order.
pub open spec fn user_document(u: UserView) -> DocumentView {
    inserted(
        inserted(
            inserted(Seq::empty(), identifier_field(), ValueView::Text(u.id.canonical())),
            "name"@,
            ValueView::Text(u.name),
        ),
        "email"@,
        ValueView::Text(u.email),
    )
}

/// The user that a document decodes to: the one whose identifier has the
/// text of the identifier field as its canonical form, with the texts of
/// the fields `name` and `email`. A document that lacks one of the three, or
/// holds no text in it, decodes to none; so does one whose identifier is
/// not in canonical form. Other fields are passed over.
pub open spec fn user_of(d: DocumentView) -> Option<UserView> {
    match (field_of(d, identifier_field()), field_of(d, "name"@), field_of(d, "email"@)) {
        (
            Some(ValueView::Text(id)),
            Some(ValueView::Text(name)),
            Some(ValueView::Text(email)),
        ) => match identifier_of(id) {
            Some(id) => Some(UserView { id, name, email }),
            None => None,
        },
        _ => None,
    }
}

/// Why a document decodes to no user: the first of the three fields, in
/// the order identifier, name, e-mail address, that fails.
pub open spec fn user_refusal(d: DocumentView) -> Seq<char> {
    match field_of(d, identifier_field()) {
        Some(ValueView::Text(id)) => if identifier_of(id) is None {
            "field `id` holds no identifier in canonical form"@
        } else if !(field_of(d, "name"@) matches Some(ValueView::Text(_))) {
            "no text in field `name`"@
        } else {
            "no text in field `email`"@
        },
        _ => "no text in field `id`"@,
    }
}

/// The names of a user's three fields differ from one another.
proof fn lemma_field_names_differ()
    ensures
        identifier_field() != "name"@,
        identifier_field() != "email"@,
        "name"@ != "email"@,
{
    reveal_strlit("id");
    reveal_strlit("name");
    reveal_strlit("email");
    assert("id"@.len() == 2);
    assert("name"@.len() == 4);
    assert("email"@.len() == 5);
}

/// What the three fields of a user's document hold.
proof fn lemma_user_document(u: UserView)
    ensures
        field_of(user_document(u), identifier_field()) == Some(ValueView::Text(u.id.canonical())),
        field_of(user_document(u), "name"@) == Some(ValueView::Text(u.name)),
        field_of(user_document(u), "email"@) == Some(ValueView::Text(u.email)),
{
    lemma_field_names_differ();
    let first = inserted(Seq::empty(), identifier_field(), ValueView::Text(u.id.canonical()));
    let second = inserted(first, "name"@, ValueView::Text(u.name));
    lemma_inserted(
        Seq::empty(),
        identifier_field(),
        ValueView::Text(u.id.canonical()),
        identifier_field(),
    );
    lemma_inserted(first, "name"@, ValueView::Text(u.name), identifier_field());
    lemma_inserted(second, "email"@, ValueView::Text(u.email), identifier_field());
    lemma_inserted(second, "email"@, ValueView::Text(u.email), "name"@);
}

impl User {
    /// A user with a fresh random identifier.
    pub fn new_random(name: &str, email: &str) -> (user: User)
        ensures
            is_random_version(user.id.value),
            user.name@ == name@,
            user.email@ == email@,
    {
        User::new(ID::new_v4(), name, email)
    }

    /// The user with the given identifier, name and e-mail address.
    pub fn new(id: ID, name: &str, email: &str) -> (user: User)
        ensures
            user@ == (UserView { id, name: name@, email: email@ }),
    {
        User { id, name: name.to_owned(), email: email.to_owned() }
    }
}

impl RootAggregate for User {
    open spec fn identity(a: UserView) -> ID {
        a.id
    }

    open spec fn encoding(a: UserView) -> Option<ValueView> {
        Some(ValueView::Document(user_document(a)))
    }

    open spec fn decoding(d: DocumentView) -> Option<UserView> {
        user_of(d)
    }

    fn id(&self) -> (id: &ID) {
        &self.id
    }

    fn encode(&self) -> (r: Result<Value, String>) {
        let mut document = Document::new();
        document.insert(String::from_str("id"), Value::Text(self.id.to_string()));
        document.insert(String::from_str("name"), Value::Text(self.name.clone()));
        document.insert(String::from_str("email"), Value::Text(self.email.clone()));
        Ok(Value::Document(document))
    }

    fn decode(document: &Document) -> (r: Result<Self, String>)
        ensures
            r matches Err(reason) ==> reason@ == user_refusal(document@),
    {
        let id = match document.get_text("id") {
            Some(text) => match ID::parse_canonical(text.as_str()) {
                Some(id) => id,
                None => {
                    return Err(String::from_str("field `id` holds no identifier in canonical form"));
                },
            },
            None => {
                return Err(String::from_str("no text in field `id`"));
            },
        };
        let name = match document.get_text("name") {
            Some(text) => text.clone(),
            None => {
                return Err(String::from_str("no text in field `name`"));
            },
        };
        let email = match document.get_text("email") {
            Some(text) => text.clone(),
            None => {
                return Err(String::from_str("no text in field `email`"));
            },
        };
        Ok(User { id, name, email })
    }

    proof fn round_trip(a: UserView) {
        lemma_user_document(a);
        lemma_identifier_of(a.id);
    }

    proof fn identifier_is_stored(a: UserView) {
        lemma_user_document(a);
    }
}

/// The users among `users` with the e-mail address `email`, in their order.
pub open spec fn with_email(users: Seq<UserView>, email: Seq<char>) -> Seq<UserView> {
    users.filter(|user: UserView| user.email == email)
}

/// What a search by e-mail address returns among `users`: the one user
/// with that address. None with that address is `NoEventsFound`, more than
/// one is `MultipleEntitiesFound` with the address.
pub open spec fn by_email(users: Seq<UserView>, email: Seq<char>) -> Result<
    UserView,
    ReadErrorView,
> {
    let hits = with_email(users, email);
    if hits.len() == 0 {
        Err(ReadErrorView::NoEventsFound)
    } else if hits.len() == 1 {
        Ok(hits[0])
    } else {
        Err(ReadErrorView::MultipleEntitiesFound(email))
    }
}

/// What the users of a vector hold, in their order.
pub open spec fn user_views(users: Seq<User>) -> Seq<UserView> {
    users.map_values(|u: User| u@)
}

/// The one user among `users` with the e-mail address `email`.
pub fn find_by_email_among(users: Vec<User>, email: &str) -> (r: Result<User, RepositoryReadError>)
    ensures
        read_view(r) == by_email(user_views(users@), email@),
{
    let wanted = email.to_owned();
    let ghost all = user_views(users@);
    let n = users.len();
    let mut first: usize = 0;
    let mut hits: usize = 0;
    let mut i: usize = 0;
    assert(all.take(0) =~= Seq::empty());
    while i < n
        invariant
            i <= n,
            n == users@.len(),
            all == user_views(users@),
            wanted@ == email@,
            hits <= i,
            hits == with_email(all.take(i as int), email@).len(),
            hits > 0 ==> first < i && with_email(all.take(i as int), email@)[0] == all[first as int],
        decreases n - i,
    {
        proof {
            reveal(Seq::filter);
            let next = all.take(i + 1);
            assert(next.drop_last() =~= all.take(i as int));
            assert(next.last() == users@[i as int]@);
        }
        if users[i].email == wanted {
            if hits == 0 {
                first = i;
            }
            hits += 1;
        }
        i += 1;
    }
    assert(all.take(n as int) =~= all);
    if hits == 0 {
        Err(RepositoryReadError::NoEventsFound)
    } else if hits == 1 {
        let mut users = users;
        Ok(users.remove(first))
    } else {
        Err(RepositoryReadError::MultipleEntitiesFound(wanted))
    }
}

/// A repository of users that also finds a user by its e-mail address.
pub trait ReadRepository: AggregateReadRepository<User> {
    /// The one user with the e-mail address `email`. The errors are
    /// `NoEventsFound` or `UnknownEntity` where no user has the address,
    /// and `MultipleEntitiesFound` where more than one has it.
    fn find_by_email(&self, email: String) -> (r: Result<User, RepositoryReadError>)
        ensures
            match r {
                Ok(user) => user.email@ == email@,
                Err(e) => e@ == ReadErrorView::NoEventsFound || e@ == ReadErrorView::UnknownEntity(
                    email@,
                ) || e@ == ReadErrorView::MultipleEntitiesFound(email@),
            },
    ;
}

impl<C: Connection> ReadRepository for Repository<C> {
    /// The one user with the e-mail address `email` among the users that
    /// `find_all` returns. Where none has the address, the error is
    /// `NoEventsFound`.
    fn find_by_email(&self, email: String) -> (r: Result<User, RepositoryReadError>)
        ensures
            exists|delivered: Seq<DocumentView>|
                read_view(r) == by_email(#[trigger] decoded::<User>(delivered), email@),
    {
        let users = <Self as AggregateReadRepository<User>>::find_all(self);
        let ghost searched = user_views(users@);
        proof {
            lemma_by_email(searched, email@);
            let delivered = choose|delivered: Seq<DocumentView>|
                users@.len() == (#[trigger] decoded::<User>(delivered)).len() && forall|i: int|
                    0 <= i < users@.len() ==> (#[trigger] users@[i])@ == decoded::<User>(
                        delivered,
                    )[i];
            assert(searched =~= decoded::<User>(delivered));
        }
        find_by_email_among(users, email.as_str())
    }
}

/// A search by e-mail address returns a user with that address, or one of
/// the errors of [`ReadRepository::find_by_email`].
pub proof fn lemma_by_email(users: Seq<UserView>, email: Seq<char>)
    ensures
        match by_email(users, email) {
            Ok(user) => user.email == email && users.contains(user),
            Err(e) => e == ReadErrorView::NoEventsFound || e == ReadErrorView::MultipleEntitiesFound(
                email,
            ),
        },
        forall|i: int|
            0 <= i < with_email(users, email).len() ==> (#[trigger] with_email(
                users,
                email,
            )[i]).email == email && users.contains(with_email(users, email)[i]),
    decreases users.len(),
{
    reveal(Seq::filter);
    if users.len() > 0 {
        let front = users.drop_last();
        lemma_by_email(front, email);
        let hits = with_email(users, email);
        assert forall|i: int| 0 <= i < hits.len() implies (#[trigger] hits[i]).email == email
            && users.contains(hits[i]) by {
            if i < with_email(front, email).len() {
                let hit = with_email(front, email)[i];
                assert(front.contains(hit));
                let k = choose|k: int| 0 <= k < front.len() && front[k] == hit;
                assert(users[k] == hit);
            } else {
                assert(users[users.len() - 1] == hits[i]);
            }
        }
    }
}

} // verus!
