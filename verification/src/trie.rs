//! The byte trie of `trie_rs`, as the library sees it.
//!
//! The trie is opaque here: what it holds is named by spec functions, and the contracts of
//! the few calls the library makes say how each call reads or changes it.

use trie_rs::{Trie, TrieBuilder};
use vstd::prelude::*;

verus! {

#[verifier::external_type_specification]
#[verifier::external_body]
#[verifier::reject_recursive_types(Label)]
pub struct ExTrie<Label>(Trie<Label>);

#[verifier::external_type_specification]
#[verifier::external_body]
#[verifier::reject_recursive_types(Label)]
pub struct ExTrieBuilder<Label>(TrieBuilder<Label>);

/// The words a built trie answers for.
pub uninterp spec fn trie_words(t: Trie<u8>) -> Set<Seq<u8>>;

/// The words of a builder that are marked as complete words.
pub uninterp spec fn builder_words(b: TrieBuilder<u8>) -> Set<Seq<u8>>;

/// The nodes of a builder: every non-empty prefix of every word pushed so far.
pub uninterp spec fn builder_nodes(b: TrieBuilder<u8>) -> Set<Seq<u8>>;

/// The non-empty prefixes of `w`.
pub open spec fn nonempty_prefixes(w: Seq<u8>) -> Set<Seq<u8>> {
    Set::new(|p: Seq<u8>| 0 < p.len() <= w.len() && p == w.take(p.len() as int))
}

/// `p` is a prefix of `q`.
pub open spec fn is_prefix(p: Seq<u8>, q: Seq<u8>) -> bool {
    p.len() <= q.len() && p == q.take(p.len() as int)
}

/// The nodes of a builder after the words `ws` are pushed, in order, into a new builder.
pub open spec fn pushed_nodes(ws: Seq<Seq<u8>>) -> Set<Seq<u8>>
    decreases ws.len(),
{
    if ws.len() == 0 {
        Set::empty()
    } else {
        pushed_nodes(ws.drop_last()).union(nonempty_prefixes(ws.last()))
    }
}

/// The recorded words of a builder after the words `ws` are pushed, in order, into a new
/// builder: each word that is non-empty and not a prefix of a word pushed before it.
pub open spec fn pushed_words(ws: Seq<Seq<u8>>) -> Set<Seq<u8>>
    decreases ws.len(),
{
    if ws.len() == 0 {
        Set::empty()
    } else {
        let prev = ws.drop_last();
        let w = ws.last();
        if w.len() > 0 && !pushed_nodes(prev).contains(w) {
            pushed_words(prev).insert(w)
        } else {
            pushed_words(prev)
        }
    }
}

/// `TrieBuilder::new`: a builder with no nodes and no words.
#[verifier::external_body]
pub fn builder_new() -> (b: TrieBuilder<u8>)
    ensures
        builder_words(b) == Set::<Seq<u8>>::empty(),
        builder_nodes(b) == Set::<Seq<u8>>::empty(),
{
    TrieBuilder::new()
}

/// `TrieBuilder::push`. It walks `word` from the root, adding a node for each byte that has
/// none, and marks only a node that it creates for the last byte as a word end. So the word
/// is recorded exactly when it is non-empty and not already a node, that is, not a prefix
/// of a word pushed before (a word pushed twice stays recorded once).
#[verifier::external_body]
pub fn builder_push(b: &mut TrieBuilder<u8>, word: &[u8])
    ensures
        builder_nodes(*final(b)) == builder_nodes(*old(b)).union(nonempty_prefixes(word@)),
        builder_words(*final(b)) == (if word@.len() > 0 && !builder_nodes(*old(b)).contains(
            word@,
        ) {
            builder_words(*old(b)).insert(word@)
        } else {
            builder_words(*old(b))
        }),
{
    b.push(word)
}

/// `TrieBuilder::build`: the built trie answers for the builder's recorded words.
#[verifier::external_body]
pub fn builder_build(b: &TrieBuilder<u8>) -> (t: Trie<u8>)
    ensures
        trie_words(t) == builder_words(*b),
{
    b.build()
}

/// `Trie::common_prefix_search`: walking `query` from the root, it collects each recorded
/// word met on the way. So it returns exactly the recorded words that are prefixes of
/// `query`, shortest first.
#[verifier::external_body]
pub fn common_prefix_search(t: &Trie<u8>, query: &[u8]) -> (r: Vec<Vec<u8>>)
    ensures
        forall|i: int|
            0 <= i < r.len() ==> trie_words(*t).contains(#[trigger] r@[i]@) && is_prefix(
                r@[i]@,
                query@,
            ),
        forall|w: Seq<u8>|
            trie_words(*t).contains(w) && w.len() > 0 && is_prefix(w, query@) ==> exists|i: int|
                0 <= i < r.len() && #[trigger] r@[i]@ == w,
        forall|i: int, j: int| 0 <= i < j < r.len() ==> r@[i]@.len() < r@[j]@.len(),
{
    t.common_prefix_search(query)
}

} // verus!
