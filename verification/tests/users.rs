use aggregate_repository::document::{Document, Value};
use aggregate_repository::primitives::{
    RepositoryReadError, RepositoryWriteError, RootAggregate, ID,
};
use aggregate_repository::user::{find_by_email_among, User};

const U1: u128 = 0x67e55044_10b1_426f_9247_bb680e5fe0c8;
const U2: u128 = 0x936da01f_9abd_4d9d_80c7_02af85c822a8;
const U3: u128 = 0x550e8400_e29b_41d4_a716_446655440000;

fn text(s: &str) -> Value {
    Value::Text(s.to_string())
}

fn document(fields: Vec<(&str, Value)>) -> Document {
    let mut d = Document::new();
    for (name, value) in fields {
        d.insert(name.to_string(), value);
    }
    d
}

fn encoded(user: &User) -> Document {
    match user.encode() {
        Ok(Value::Document(d)) => d,
        other => panic!("a user encodes to a document, not to {:?}", other),
    }
}

#[test]
fn new_user_holds_what_it_was_given() {
    let sean = User::new(ID::from_u128(U1), "Sean", "sean@example.com");
    assert_eq!(ID::from_u128(U1), sean.id);
    assert_eq!("Sean", sean.name);
    assert_eq!("sean@example.com", sean.email);
    assert_eq!(&ID::from_u128(U1), sean.id());
}

#[test]
fn random_user_has_a_random_identifier() {
    let one = User::new_random("Sean", "sean@example.com");
    let two = User::new_random("Sean", "sean@example.com");
    assert_eq!("Sean", one.name);
    assert_eq!("sean@example.com", one.email);
    assert_eq!(4, (one.id.as_u128() >> 76) & 0xf);
    assert_eq!(2, (one.id.as_u128() >> 62) & 0x3);
    assert_ne!(one.id, two.id);
}

#[test]
fn user_encodes_to_a_document_of_three_texts() {
    let sean = User::new(ID::from_u128(U1), "Sean", "sean@example.com");
    assert_eq!(
        Ok(Value::Document(document(vec![
            ("id", text("67e55044-10b1-426f-9247-bb680e5fe0c8")),
            ("name", text("Sean")),
            ("email", text("sean@example.com")),
        ]))),
        sean.encode()
    );
}

#[test]
fn decoding_the_encoding_gives_the_user_back() {
    for user in [
        User::new(ID::from_u128(U1), "Sean", "sean@example.com"),
        User::new(ID::from_u128(0), "", ""),
        User::new(ID::from_u128(u128::MAX), "Jürgen 🚀", "j@exämple.com"),
        User::new_random("Other User", "otheremail@example.com"),
    ] {
        assert_eq!(Ok(user.clone()), User::decode(&encoded(&user)));
    }
}

#[test]
fn decoding_passes_over_other_fields_and_order() {
    let d = document(vec![
        ("_id", Value::Binary(vec![0; 12])),
        ("email", text("sean@example.com")),
        ("age", Value::Int32(125)),
        ("name", text("Sean")),
        ("id", text("67e55044-10b1-426f-9247-bb680e5fe0c8")),
    ]);
    assert_eq!(
        Ok(User::new(ID::from_u128(U1), "Sean", "sean@example.com")),
        User::decode(&d)
    );
}

#[test]
fn decoding_needs_all_three_fields_as_text() {
    let id = text("67e55044-10b1-426f-9247-bb680e5fe0c8");
    assert!(User::decode(&Document::new()).is_err());
    assert!(User::decode(&document(vec![
        ("name", text("Sean")),
        ("email", text("sean@example.com")),
    ]))
    .is_err());
    assert!(User::decode(&document(vec![
        ("id", id.clone()),
        ("email", text("sean@example.com")),
    ]))
    .is_err());
    assert!(User::decode(&document(vec![("id", id.clone()), ("name", text("Sean"))])).is_err());
    assert!(User::decode(&document(vec![
        ("id", id.clone()),
        ("name", Value::Int32(125)),
        ("email", text("sean@example.com")),
    ]))
    .is_err());
    assert!(User::decode(&document(vec![
        ("id", Value::Binary(vec![0; 16])),
        ("name", text("Sean")),
        ("email", text("sean@example.com")),
    ]))
    .is_err());
    assert!(User::decode(&document(vec![
        ("id", id),
        ("name", text("Sean")),
        ("email", Value::Null),
    ]))
    .is_err());
}

#[test]
fn decoding_needs_the_identifier_in_canonical_form() {
    let with_id = |id: &str| {
        document(vec![
            ("id", text(id)),
            ("name", text("Sean")),
            ("email", text("sean@example.com")),
        ])
    };
    assert!(User::decode(&with_id("67e55044-10b1-426f-9247-bb680e5fe0c8")).is_ok());
    assert!(User::decode(&with_id("67E55044-10B1-426F-9247-BB680E5FE0C8")).is_err());
    assert!(User::decode(&with_id("67e5504410b1426f9247bb680e5fe0c8")).is_err());
    assert!(User::decode(&with_id("Sean")).is_err());
    assert!(User::decode(&with_id("")).is_err());
}

#[test]
fn search_by_email_finds_the_one_user() {
    let sean = User::new(ID::from_u128(U1), "Sean", "b@example.com");
    let other = User::new(ID::from_u128(U2), "Other User", "otheremail@example.com");
    assert_eq!(
        Ok(sean.clone()),
        find_by_email_among(vec![sean.clone(), other.clone()], "b@example.com")
    );
    assert_eq!(
        Ok(other.clone()),
        find_by_email_among(vec![sean.clone(), other.clone()], "otheremail@example.com")
    );
    assert_eq!(
        Ok(sean.clone()),
        find_by_email_among(vec![other, sean], "b@example.com")
    );
}

#[test]
fn search_by_email_without_a_match() {
    let other = User::new(ID::from_u128(U2), "Other User", "otheremail@example.com");
    assert_eq!(
        Err(RepositoryReadError::NoEventsFound),
        find_by_email_among(vec![], "b@example.com")
    );
    assert_eq!(
        Err(RepositoryReadError::NoEventsFound),
        find_by_email_among(vec![other], "b@example.com")
    );
}

#[test]
fn search_by_email_with_several_matches() {
    let sean = User::new(ID::from_u128(U1), "Sean", "b@example.com");
    let shaun = User::new(ID::from_u128(U2), "Shaun", "b@example.com");
    let third = User::new(ID::from_u128(U3), "Shawn", "b@example.com");
    let other = User::new(ID::from_u128(0), "Other User", "otheremail@example.com");
    assert_eq!(
        Err(RepositoryReadError::MultipleEntitiesFound(
            "b@example.com".to_string()
        )),
        find_by_email_among(vec![sean.clone(), other.clone(), shaun.clone()], "b@example.com")
    );
    assert_eq!(
        Err(RepositoryReadError::MultipleEntitiesFound(
            "b@example.com".to_string()
        )),
        find_by_email_among(vec![sean, shaun, third, other], "b@example.com")
    );
}

#[test]
fn errors_have_their_messages() {
    assert_eq!(
        "no events were found",
        RepositoryReadError::NoEventsFound.to_string()
    );
    assert_eq!(
        "entity `67e55044-10b1-426f-9247-bb680e5fe0c8` was not found",
        RepositoryReadError::UnknownEntity("67e55044-10b1-426f-9247-bb680e5fe0c8".to_string())
            .to_string()
    );
    assert_eq!(
        "multiple entities found for `b@example.com`",
        RepositoryReadError::MultipleEntitiesFound("b@example.com".to_string()).to_string()
    );
    assert_eq!(
        "failed to persist entity: `disk full`",
        RepositoryWriteError::FailedToPersist {
            cause: "disk full".to_string()
        }
        .to_string()
    );
}

#[test]
fn decoding_says_which_field_fails() {
    let id = text("67e55044-10b1-426f-9247-bb680e5fe0c8");
    assert_eq!(
        Err("no text in field `id`".to_string()),
        User::decode(&document(vec![("name", text("Sean"))]))
    );
    assert_eq!(
        Err("field `id` holds no identifier in canonical form".to_string()),
        User::decode(&document(vec![("id", text("Sean")), ("name", text("Sean"))]))
    );
    assert_eq!(
        Err("no text in field `name`".to_string()),
        User::decode(&document(vec![
            ("id", id.clone()),
            ("email", text("sean@example.com")),
        ]))
    );
    assert_eq!(
        Err("no text in field `email`".to_string()),
        User::decode(&document(vec![
            ("id", id),
            ("name", text("Sean")),
            ("email", Value::Int32(1)),
        ]))
    );
}
