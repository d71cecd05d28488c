//! What holds of a repository whose collection does what the model of
//! [`crate::collection`] says.
use crate::collection::{
    after, all_delivered, all_matches, first_match, is_match, lemma_all_match_empty_filter,
    lemma_first_match, lemma_first_match_is, lemma_match_one_field, lemma_no_match,
    lemma_single_match, one_delivered, one_per_identifier, stored_identifier,
};
use crate::document::{DocumentView, ValueView};
use crate::mongo::{
    clear_plan, find_all_plan, find_plan, identifier_filter, no_filter, store_plan,
};
use crate::primitives::{
    decoded, encodes_to_document, find_result, identifier_field, lemma_canonical_injective,
    ReadErrorView, RootAggregate, ID,
};
use vstd::prelude::*;

verus! {

/// The collection `c` after the aggregate `a` was stored in it. An aggregate
/// that is not stored leaves the collection as it was.
pub open spec fn stored<T: RootAggregate>(c: Seq<DocumentView>, a: T::V) -> Seq<DocumentView> {
    match T::encoding(a) {
        Some(value) => match store_plan(T::identity(a), Ok(value)) {
            Ok(operation) => after(c, operation),
            Err(_) => c,
        },
        None => c,
    }
}

/// The collection `c` after it was cleared.
pub open spec fn cleared(c: Seq<DocumentView>) -> Seq<DocumentView> {
    after(c, clear_plan())
}

/// What `find` returns for `id` on the collection `c`.
pub open spec fn found<T: RootAggregate>(c: Seq<DocumentView>, id: ID) -> Result<
    T::V,
    ReadErrorView,
> {
    find_result::<T>(id, one_delivered(c, find_plan(id)))
}

/// What `find_all` returns on the collection `c`.
pub open spec fn found_all<T: RootAggregate>(c: Seq<DocumentView>) -> Seq<T::V> {
    decoded::<T>(all_delivered(c, find_all_plan()))
}

/// The document that the aggregate `a` encodes to.
pub open spec fn document_of<T: RootAggregate>(a: T::V) -> DocumentView
    recommends
        encodes_to_document::<T>(a),
{
    T::encoding(a).unwrap()->Document_0
}

/// A document matches the filter of an identifier exactly where it holds
/// the identifier's canonical form in its identifier field.
pub proof fn lemma_identifier_filter(id: ID, document: DocumentView)
    ensures
        is_match(identifier_filter(id), document) <==> stored_identifier(document) == Some(
            ValueView::Text(id.canonical()),
        ),
{
    lemma_match_one_field(identifier_field(), ValueView::Text(id.canonical()), document);
}

/// Where a stored aggregate's document stands: at one position `k`, the
/// only one whose document matches the aggregate's identifier. Every other
/// document of the collection stays as it was, and where it was.
pub proof fn lemma_stored<T: RootAggregate>(c: Seq<DocumentView>, a: T::V) -> (k: int)
    requires
        one_per_identifier(c),
        encodes_to_document::<T>(a),
    ensures
        0 <= k < stored::<T>(c, a).len(),
        k <= c.len(),
        stored::<T>(c, a).len() == if k == c.len() {
            c.len() + 1
        } else {
            c.len()
        },
        stored::<T>(c, a)[k] == document_of::<T>(a),
        k < c.len() ==> is_match(identifier_filter(T::identity(a)), c[k]),
        forall|j: int| 0 <= j < c.len() && j != k ==> #[trigger] stored::<T>(c, a)[j] == c[j],
        forall|j: int|
            0 <= j < stored::<T>(c, a).len() && j != k ==> !is_match(
                identifier_filter(T::identity(a)),
                #[trigger] stored::<T>(c, a)[j],
            ),
        is_match(identifier_filter(T::identity(a)), document_of::<T>(a)),
        one_per_identifier(stored::<T>(c, a)),
{
    let id = T::identity(a);
    let filter = identifier_filter(id);
    let d = document_of::<T>(a);
    let next = stored::<T>(c, a);
    let key = Some(ValueView::Text(id.canonical()));
    T::identifier_is_stored(a);
    lemma_identifier_filter(id, d);
    lemma_first_match(c, filter);
    assert forall|j: int| 0 <= j < c.len() implies (is_match(filter, #[trigger] c[j])
        <==> stored_identifier(c[j]) == key) by {
        lemma_identifier_filter(id, c[j]);
    }
    let k = match first_match(c, filter) {
        Some(i) => i,
        None => c.len() as int,
    };
    assert forall|j: int| 0 <= j < next.len() && j != k implies !is_match(
        filter,
        #[trigger] next[j],
    ) by {
        assert(next[j] == c[j]);
        if is_match(filter, c[j]) {
            assert(k < c.len());
            assert(stored_identifier(c[k]) == key);
            assert(stored_identifier(c[j]) == key);
            if j < k {
                assert(!is_match(filter, c[j]));
            } else {
                assert(stored_identifier(c[k]) != stored_identifier(c[j]));
            }
        }
    }
    assert forall|i: int, j: int|
        0 <= i < j < next.len() && stored_identifier(
            #[trigger] next[i],
        ) is Some implies stored_identifier(next[i]) != stored_identifier(#[trigger] next[j]) by {
        if i == k {
            assert(!is_match(filter, next[j]));
            lemma_identifier_filter(id, next[j]);
        } else if j == k {
            assert(!is_match(filter, next[i]));
            lemma_identifier_filter(id, next[i]);
        } else {
            assert(next[i] == c[i]);
            assert(next[j] == c[j]);
        }
    }
    k
}

/// The codec loses nothing: the document that an aggregate encodes to
/// decodes to that aggregate.
pub proof fn law_round_trip<T: RootAggregate>(a: T::V)
    requires
        encodes_to_document::<T>(a),
    ensures
        T::decoding(document_of::<T>(a)) == Some(a),
{
    T::round_trip(a);
}

/// An aggregate that was stored is found under its identifier, and its
/// document is the only one of that identifier.
pub proof fn law_stored_is_found<T: RootAggregate>(c: Seq<DocumentView>, a: T::V)
    requires
        one_per_identifier(c),
        encodes_to_document::<T>(a),
    ensures
        found::<T>(stored::<T>(c, a), T::identity(a)) == Ok::<T::V, ReadErrorView>(a),
        all_matches(stored::<T>(c, a), identifier_filter(T::identity(a))) == seq![
            document_of::<T>(a),
        ],
        one_per_identifier(stored::<T>(c, a)),
{
    let k = lemma_stored::<T>(c, a);
    lemma_single_match(stored::<T>(c, a), identifier_filter(T::identity(a)), k);
    T::round_trip(a);
}

/// Upsert is idempotent: storing the same aggregate a second time changes
/// nothing, and the collection holds exactly one document of the
/// identifier of a stored aggregate.
pub proof fn law_store_is_idempotent<T: RootAggregate>(c: Seq<DocumentView>, a: T::V)
    requires
        one_per_identifier(c),
    ensures
        stored::<T>(stored::<T>(c, a), a) == stored::<T>(c, a),
        encodes_to_document::<T>(a) ==> all_matches(
            stored::<T>(c, a),
            identifier_filter(T::identity(a)),
        ) == seq![document_of::<T>(a)],
{
    if encodes_to_document::<T>(a) {
        let once = stored::<T>(c, a);
        let k = lemma_stored::<T>(c, a);
        lemma_single_match(once, identifier_filter(T::identity(a)), k);
        assert(once.update(k, document_of::<T>(a)) =~= once);
    }
}

/// Upsert replaces: of two aggregates with one identifier that are stored
/// one after the other, the collection holds the later one and nothing of
/// the earlier one, in exactly one document.
pub proof fn law_store_replaces<T: RootAggregate>(c: Seq<DocumentView>, a: T::V, b: T::V)
    requires
        one_per_identifier(c),
        encodes_to_document::<T>(a),
        encodes_to_document::<T>(b),
        T::identity(a) == T::identity(b),
    ensures
        found::<T>(stored::<T>(stored::<T>(c, a), b), T::identity(a)) == Ok::<T::V, ReadErrorView>(
            b,
        ),
        all_matches(stored::<T>(stored::<T>(c, a), b), identifier_filter(T::identity(a))) == seq![
            document_of::<T>(b),
        ],
        stored::<T>(stored::<T>(c, a), b).len() == stored::<T>(c, a).len(),
{
    let once = stored::<T>(c, a);
    let k = lemma_stored::<T>(c, a);
    lemma_single_match(once, identifier_filter(T::identity(a)), k);
    law_stored_is_found::<T>(once, b);
}

/// Identities are isolated: storing an aggregate changes nothing of what is
/// found under any other identifier.
pub proof fn law_store_leaves_others<T: RootAggregate>(c: Seq<DocumentView>, a: T::V, other: ID)
    requires
        one_per_identifier(c),
        other != T::identity(a),
    ensures
        one_delivered(stored::<T>(c, a), find_plan(other)) == one_delivered(c, find_plan(other)),
        found::<T>(stored::<T>(c, a), other) == found::<T>(c, other),
        all_matches(stored::<T>(c, a), identifier_filter(other)) == all_matches(
            c,
            identifier_filter(other),
        ),
{
    if encodes_to_document::<T>(a) {
        let id = T::identity(a);
        let next = stored::<T>(c, a);
        let theirs = identifier_filter(other);
        let k = lemma_stored::<T>(c, a);
        if other.canonical() == id.canonical() {
            lemma_canonical_injective(other, id);
        }
        // The document at `k` is of `id` before and after: it never matches `other`.
        lemma_identifier_filter(id, next[k]);
        lemma_identifier_filter(other, next[k]);
        assert(!is_match(theirs, next[k]));
        if k < c.len() {
            lemma_identifier_filter(id, c[k]);
            lemma_identifier_filter(other, c[k]);
            assert(!is_match(theirs, c[k]));
        }
        lemma_same_matches(c, next, theirs, k);
    }
}

/// Two collections that differ only at a position where neither matches
/// the filter, or by one more document there at the end, deliver the same.
proof fn lemma_same_matches(
    c: Seq<DocumentView>,
    next: Seq<DocumentView>,
    filter: DocumentView,
    k: int,
)
    requires
        0 <= k <= c.len(),
        0 <= k < next.len(),
        next.len() == if k == c.len() {
            c.len() + 1
        } else {
            c.len()
        },
        forall|j: int| 0 <= j < c.len() && j != k ==> #[trigger] next[j] == c[j],
        !is_match(filter, next[k]),
        k < c.len() ==> !is_match(filter, c[k]),
    ensures
        first_match(next, filter) == first_match(c, filter),
        first_match(c, filter) matches Some(i) ==> next[i] == c[i],
        all_matches(next, filter) == all_matches(c, filter),
    decreases c.len(),
{
    reveal(Seq::filter);
    lemma_first_match(c, filter);
    match first_match(c, filter) {
        Some(i) => {
            assert(next[i] == c[i]);
            assert forall|j: int| 0 <= j < i implies !is_match(filter, #[trigger] next[j]) by {
                if j != k {
                    assert(next[j] == c[j]);
                }
            }
            lemma_first_match_is(next, filter, i);
        },
        None => {
            assert forall|j: int| 0 <= j < next.len() implies !is_match(
                filter,
                #[trigger] next[j],
            ) by {
                if j != k {
                    assert(next[j] == c[j]);
                }
            }
            lemma_no_match(next, filter);
        },
    }
    if k == c.len() {
        assert(next.drop_last() =~= c);
    } else {
        let n = c.len() - 1;
        let c_front = c.drop_last();
        let next_front = next.drop_last();
        if k == n {
            assert(next_front =~= c_front);
        } else {
            assert(next[n] == c[n]);
            assert forall|j: int| 0 <= j < c_front.len() && j != k implies #[trigger] next_front[j]
                == c_front[j] by {
                assert(next[j] == c[j]);
            }
            assert(next_front[k] == next[k]);
            assert(c_front[k] == c[k]);
            lemma_same_matches(c_front, next_front, filter, k);
        }
    }
}

/// Identities are isolated: two aggregates with distinct identifiers are
/// stored in two distinct documents, and each is found under its own
/// identifier, whichever was stored first.
pub proof fn law_identities_are_isolated<T: RootAggregate>(c: Seq<DocumentView>, a: T::V, b: T::V)
    requires
        one_per_identifier(c),
        encodes_to_document::<T>(a),
        encodes_to_document::<T>(b),
        T::identity(a) != T::identity(b),
    ensures
        found::<T>(stored::<T>(stored::<T>(c, a), b), T::identity(a)) == Ok::<T::V, ReadErrorView>(
            a,
        ),
        found::<T>(stored::<T>(stored::<T>(c, a), b), T::identity(b)) == Ok::<T::V, ReadErrorView>(
            b,
        ),
        all_matches(stored::<T>(stored::<T>(c, a), b), identifier_filter(T::identity(a))) == seq![
            document_of::<T>(a),
        ],
        all_matches(stored::<T>(stored::<T>(c, a), b), identifier_filter(T::identity(b))) == seq![
            document_of::<T>(b),
        ],
        first_match(stored::<T>(stored::<T>(c, a), b), identifier_filter(T::identity(a)))
            != first_match(stored::<T>(stored::<T>(c, a), b), identifier_filter(T::identity(b))),
{
    let once = stored::<T>(c, a);
    let twice = stored::<T>(once, b);
    law_stored_is_found::<T>(c, a);
    law_stored_is_found::<T>(once, b);
    law_store_leaves_others::<T>(once, b, T::identity(a));
    // The two documents stand at the positions that the two filters find.
    let fa = identifier_filter(T::identity(a));
    let fb = identifier_filter(T::identity(b));
    lemma_first_match(twice, fa);
    lemma_first_match(twice, fb);
    let kb = lemma_stored::<T>(once, b);
    lemma_single_match(twice, fb, kb);
    if T::identity(a).canonical() == T::identity(b).canonical() {
        lemma_canonical_injective(T::identity(a), T::identity(b));
    }
    lemma_identifier_filter(T::identity(a), twice[kb]);
    lemma_identifier_filter(T::identity(b), twice[kb]);
}

/// A cleared collection is empty: `find_all` returns nothing from it, and
/// `find` knows no identifier.
pub proof fn law_cleared_is_empty<T: RootAggregate>(c: Seq<DocumentView>, id: ID)
    ensures
        cleared(c) == Seq::<DocumentView>::empty(),
        one_per_identifier(cleared(c)),
        found_all::<T>(cleared(c)) == Seq::<T::V>::empty(),
        found::<T>(cleared(c), id) == Err::<T::V, ReadErrorView>(
            ReadErrorView::UnknownEntity(id.canonical()),
        ),
{
    lemma_no_match(cleared(c), no_filter());
    lemma_no_match(cleared(c), identifier_filter(id));
}

/// `find_all` decodes every document of the collection, in order, and
/// leaves out those that do not decode.
pub proof fn law_scan_decodes_all<T: RootAggregate>(c: Seq<DocumentView>, d: DocumentView)
    ensures
        found_all::<T>(Seq::empty()) == Seq::<T::V>::empty(),
        found_all::<T>(c.push(d)) == match T::decoding(d) {
            Some(a) => found_all::<T>(c).push(a),
            None => found_all::<T>(c),
        },
{
    lemma_all_match_empty_filter(Seq::empty());
    lemma_all_match_empty_filter(c);
    lemma_all_match_empty_filter(c.push(d));
    assert(c.push(d).drop_last() =~= c);
}

/// The scan is lossy: of two documents of which one decodes to a `T` and
/// the other does not, `find_all` returns the one aggregate, in whichever
/// order the collection holds the two.
pub proof fn law_scan_is_lossy<T: RootAggregate>(good: DocumentView, bad: DocumentView, a: T::V)
    requires
        T::decoding(good) == Some(a),
        T::decoding(bad) is None,
    ensures
        found_all::<T>(seq![good, bad]) == seq![a],
        found_all::<T>(seq![bad, good]) == seq![a],
{
    let empty = Seq::<DocumentView>::empty();
    law_scan_decodes_all::<T>(empty, good);
    law_scan_decodes_all::<T>(empty, bad);
    law_scan_decodes_all::<T>(empty.push(good), bad);
    law_scan_decodes_all::<T>(empty.push(bad), good);
    assert(empty.push(good).push(bad) =~= seq![good, bad]);
    assert(empty.push(bad).push(good) =~= seq![bad, good]);
    assert(Seq::<T::V>::empty().push(a) =~= seq![a]);
}

} // verus!
