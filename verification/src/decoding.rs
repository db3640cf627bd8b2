//! Stop conditions: when a stream of generated text should stop, and how much of its end
//! to cut off.

use crate::trie::{
    builder_build, builder_new, builder_nodes, builder_push, builder_words, common_prefix_search,
    is_prefix, pushed_nodes, pushed_words, trie_words,
};
use crate::languages::{
    same_text, string_views, CommentMarkers, CommentStyle, Language, on_new_line,
};
use dashmap::mapref::one::Ref;
use dashmap::DashMap;
use std::sync::Arc;
use vstd::string::StringExecFns;
use vstd::utf8::encode_utf8;
use trie_rs::Trie;
use vstd::prelude::*;

verus! {

/// `String::push`: appends one character.
#[verifier::external_body]
fn string_push(s: &mut String, c: char)
    ensures
        final(s)@ == old(s)@.push(c),
{
    s.push(c)
}

/// The characters of `s` in reverse order.
pub fn reverse(s: &str) -> (r: String)
    ensures
        r@ == s@.reverse(),
{
    let mut chars: Vec<char> = Vec::new();
    for c in it: s.chars()
        invariant
            it.seq() == s@,
            chars@ == it.seq().take(it.index()),
    {
        chars.push(c);
    }
    let mut out = String::new();
    let mut i = chars.len();
    while i > 0
        invariant
            i <= chars.len(),
            chars@ == s@,
            out@ == s@.subrange(i as int, s@.len() as int).reverse(),
        decreases i,
    {
        i = i - 1;
        string_push(&mut out, chars[i]);
        assert(out@ =~= s@.subrange(i as int, s@.len() as int).reverse());
    }
    assert(s@.subrange(0, s@.len() as int) =~= s@);
    out
}

/// The bytes under which a stop word is kept: its characters reversed, in UTF-8.
pub open spec fn reversed_bytes(w: Seq<char>) -> Seq<u8> {
    encode_utf8(w.reverse())
}

/// The entries pushed for a list of stop words, in order.
pub open spec fn stop_entries(words: Seq<Seq<char>>) -> Seq<Seq<u8>> {
    words.map_values(|w: Seq<char>| reversed_bytes(w))
}

/// The words that a trie built from `words` answers for.
pub open spec fn stop_trie_words(words: Seq<Seq<char>>) -> Set<Seq<u8>> {
    pushed_words(stop_entries(words))
}

/// Builds the trie of the reversed stop words, so that a stop word at the end of a text is
/// a prefix of the reversed text.
pub fn create_stop_trie(stop_words: Vec<String>) -> (t: Trie<u8>)
    ensures
        trie_words(t) == stop_trie_words(string_views(stop_words@)),
{
    let mut builder = builder_new();
    let ghost entries = stop_entries(string_views(stop_words@));
    let mut i: usize = 0;
    while i < stop_words.len()
        invariant
            i <= stop_words.len(),
            entries == stop_entries(string_views(stop_words@)),
            builder_words(builder) == pushed_words(entries.take(i as int)),
            builder_nodes(builder) == pushed_nodes(entries.take(i as int)),
        decreases stop_words.len() - i,
    {
        let r = reverse(stop_words[i].as_str());
        builder_push(&mut builder, r.as_str().as_bytes());
        assert(entries.take(i + 1).drop_last() =~= entries.take(i as int));
        i = i + 1;
    }
    assert(entries.take(stop_words.len() as int) =~= entries);
    builder_build(&builder)
}

/// Where the line that starts at `k` ends: the position of the first newline at or after
/// `k`, or the end of `t`.
pub open spec fn line_end(t: Seq<u8>, k: int) -> int
    decreases t.len() - k,
{
    if k >= t.len() {
        t.len() as int
    } else if t[k] == 10u8 {
        k
    } else {
        line_end(t, k + 1)
    }
}

/// The line that follows position `i`: from `i + 1` up to the next newline or the end.
pub open spec fn line_after(t: Seq<u8>, i: int) -> Seq<u8> {
    t.subrange(i + 1, line_end(t, i + 1))
}

/// Position `i` of `t` is a newline after which the text has left a comment with marker `m`:
/// the line after it is not empty, does not begin the marker and does not begin with it.
pub open spec fn leaves_marker(t: Seq<u8>, m: Seq<u8>, i: int) -> bool {
    &&& 0 <= i < t.len()
    &&& t[i] == 10u8
    &&& line_after(t, i).len() > 0
    &&& !is_prefix(line_after(t, i), m)
    &&& !is_prefix(m, line_after(t, i))
}

/// `i` is the first newline of `t` after which the text leaves the comment.
pub open spec fn first_leaving(t: Seq<u8>, m: Seq<u8>, i: int) -> bool {
    leaves_marker(t, m, i) && forall|j: int| 0 <= j < i ==> !#[trigger] leaves_marker(t, m, j)
}

/// The end of a numbered step list written in line comments with marker `m`, in the
/// generated text `t`: at the first newline whose next line leaves the comment. The result is
/// the number of bytes from that newline to the end of `t`; `None` while there is no such
/// newline.
pub open spec fn stochastic_line_end(t: Seq<u8>, m: Seq<u8>) -> Option<nat> {
    if exists|i: int| first_leaving(t, m, i) {
        Some((t.len() - choose|i: int| first_leaving(t, m, i)) as nat)
    } else {
        None
    }
}

pub(crate) proof fn lemma_line_end(t: Seq<u8>, k: int)
    requires
        0 <= k <= t.len(),
    ensures
        k <= line_end(t, k) <= t.len(),
        line_end(t, k) < t.len() ==> t[line_end(t, k)] == 10u8,
        forall|p: int| k <= p < line_end(t, k) ==> t[p] != 10u8,
    decreases t.len() - k,
{
    if k < t.len() && t[k] != 10u8 {
        lemma_line_end(t, k + 1);
    }
}

pub(crate) proof fn lemma_line_end_at(t: Seq<u8>, k: int, j: int)
    requires
        0 <= k <= j <= t.len(),
        forall|p: int| k <= p < j ==> t[p] != 10u8,
        j == t.len() || t[j] == 10u8,
    ensures
        line_end(t, k) == j,
    decreases j - k,
{
    if k < j {
        lemma_line_end_at(t, k + 1, j);
    }
}

pub(crate) proof fn lemma_neither_prefix(l: Seq<u8>, m: Seq<u8>)
    ensures
        (!is_prefix(l, m) && !is_prefix(m, l)) <==> exists|p: int|
            0 <= p < l.len() && p < m.len() && #[trigger] l[p] != m[p],
{
    if exists|p: int| 0 <= p < l.len() && p < m.len() && #[trigger] l[p] != m[p] {
        let p = choose|p: int| 0 <= p < l.len() && p < m.len() && #[trigger] l[p] != m[p];
        if is_prefix(l, m) {
            assert(m.take(l.len() as int)[p] == m[p]);
        }
        if is_prefix(m, l) {
            assert(l.take(m.len() as int)[p] == l[p]);
        }
    } else {
        if l.len() <= m.len() {
            assert(l =~= m.take(l.len() as int));
        } else {
            assert(m =~= l.take(m.len() as int));
        }
    }
}

/// Whether the newline at `i` is followed by a line that leaves the comment with marker `m`.
fn line_leaves(bytes: &[u8], m: &[u8], i: usize) -> (r: bool)
    requires
        i < bytes.len(),
        bytes@[i as int] == 10u8,
    ensures
        r == leaves_marker(bytes@, m@, i as int),
{
    let ghost t = bytes@;
    proof {
        lemma_line_end(t, i + 1);
    }
    let ghost e = line_end(t, i + 1);
    let ghost line = line_after(t, i as int);
    let mut j: usize = i + 1;
    let mut k: usize = 0;
    while j < bytes.len() && bytes[j] != 10u8 && k < m.len()
        invariant
            i + 1 <= j <= bytes@.len(),
            t[i as int] == 10u8,
            k == j - i - 1,
            k <= m@.len(),
            t == bytes@,
            e == line_end(t, i + 1),
            i + 1 <= e <= t.len(),
            forall|p: int| i + 1 <= p < e ==> t[p] != 10u8,
            e < t.len() ==> t[e] == 10u8,
            line == t.subrange(i + 1, e),
            forall|p: int| i + 1 <= p < j ==> t[p] != 10u8,
            forall|p: int| 0 <= p < k ==> t[i + 1 + p] == m@[p],
        decreases bytes@.len() - j,
    {
        if bytes[j] != m[k] {
            proof {
                lemma_line_end(t, j as int);
                lemma_line_end_at(t, i + 1, line_end(t, j as int));
                assert(line[k as int] == t[j as int]);
                lemma_neither_prefix(line, m@);
            }
            return true;
        }
        j = j + 1;
        k = k + 1;
    }
    if j < bytes.len() && bytes[j] != 10u8 {
        proof {
            lemma_line_end(t, j as int);
            lemma_line_end_at(t, i + 1, line_end(t, j as int));
            assert(line.take(m@.len() as int) =~= m@);
        }
    } else {
        proof {
            lemma_line_end_at(t, i + 1, j as int);
            assert(line =~= m@.take(k as int));
        }
    }
    false
}

/// For a step list written in line comments: whether the generated text has left the
/// comment, that is, has a newline followed by a line that is not a prefix of the comment
/// marker and does not start with the whole marker. Returns the number of bytes, from the
/// first such newline inclusive, to cut from the end of the text; `None` to keep going.
pub fn check_stochastic_line_end(text: &str, marker: &str) -> (r: Option<usize>)
    ensures
        r matches Some(k) ==> stochastic_line_end(encode_utf8(text@), encode_utf8(marker@)) == Some(
            k as nat,
        ),
        r is None ==> stochastic_line_end(encode_utf8(text@), encode_utf8(marker@)) is None,
{
    let bytes = text.as_bytes();
    let m = marker.as_bytes();
    let ghost t = bytes@;
    let mut i: usize = 0;
    while i < bytes.len()
        invariant
            i <= bytes@.len(),
            t == bytes@,
            t == encode_utf8(text@),
            m@ == encode_utf8(marker@),
            forall|j: int| 0 <= j < i ==> !#[trigger] leaves_marker(t, m@, j),
        decreases bytes@.len() - i,
    {
        if bytes[i] == 10u8 && line_leaves(bytes, m, i) {
            proof {
                assert(first_leaving(t, m@, i as int));
                let c = choose|c: int| first_leaving(t, m@, c);
                if c < i {
                    assert(!leaves_marker(t, m@, c));
                } else if c > i {
                    assert(!leaves_marker(t, m@, i as int));
                }
            }
            return Some(bytes.len() - i);
        }
        i = i + 1;
    }
    proof {
        if exists|c: int| first_leaving(t, m@, c) {
            let c = choose|c: int| first_leaving(t, m@, c);
            assert(!leaves_marker(t, m@, c));
        }
    }
    None
}

/// `Arc::clone`: another pointer to the same trie.
#[verifier::external_body]
fn share_trie(t: &Arc<Trie<u8>>) -> (r: Arc<Trie<u8>>)
    ensures
        r == *t,
{
    Arc::clone(t)
}

/// The length of the longest of `words` that is a prefix of `q` and at most `k` long; 0 when
/// there is none.
pub open spec fn longest_prefix_in(words: Set<Seq<u8>>, q: Seq<u8>, k: int) -> nat
    decreases k,
{
    if k <= 0 {
        0
    } else if words.contains(q.take(k)) {
        k as nat
    } else {
        longest_prefix_in(words, q, k - 1)
    }
}

/// The length of the longest word of a trie that starts `q`; 0 when there is no trie or no
/// such word.
pub open spec fn trie_match(words: Option<Set<Seq<u8>>>, q: Seq<u8>) -> nat {
    match words {
        Some(w) => longest_prefix_in(w, q, q.len() as int),
        None => 0,
    }
}

pub(crate) proof fn lemma_longest_prefix_in(words: Set<Seq<u8>>, q: Seq<u8>, k: int)
    requires
        k <= q.len(),
    ensures
        longest_prefix_in(words, q, k) <= k || k <= 0,
        longest_prefix_in(words, q, k) > 0 ==> words.contains(q.take(longest_prefix_in(words, q, k) as int)),
        forall|j: int| 0 < j <= k && words.contains(q.take(j)) ==> j <= longest_prefix_in(words, q, k),
    decreases k,
{
    if k > 0 && !words.contains(q.take(k)) {
        lemma_longest_prefix_in(words, q, k - 1);
    }
}

/// The length of the longest of the words that `t` finds at the start of `q`; 0 when it
/// finds none.
fn longest_match(t: &Trie<u8>, q: &[u8]) -> (r: usize)
    ensures
        r == longest_prefix_in(trie_words(*t), q@, q@.len() as int),
{
    let matches = common_prefix_search(t, q);
    let mut best: usize = 0;
    let mut i: usize = 0;
    while i < matches.len()
        invariant
            i <= matches@.len(),
            best <= q@.len(),
            best > 0 ==> trie_words(*t).contains(q@.take(best as int)),
            forall|j: int| 0 <= j < i ==> matches@[j]@.len() <= best,
            forall|j: int|
                0 <= j < matches@.len() ==> trie_words(*t).contains(#[trigger] matches@[j]@)
                    && is_prefix(matches@[j]@, q@),
        decreases matches@.len() - i,
    {
        let len = matches[i].len();
        assert(is_prefix(matches@[i as int]@, q@));
        if len > best {
            best = len;
            assert(matches@[i as int]@ == q@.take(best as int));
        }
        i = i + 1;
    }
    proof {
        let k = q@.len() as int;
        lemma_longest_prefix_in(trie_words(*t), q@, k);
        let l = longest_prefix_in(trie_words(*t), q@, k);
        if l > 0 {
            let w = q@.take(l as int);
            assert(is_prefix(w, q@));
            let j = choose|j: int| 0 <= j < matches@.len() && #[trigger] matches@[j]@ == w;
            assert(matches@[j]@.len() == l);
        }
        if best > 0 {
            assert(best <= l);
        }
    }
    best
}

/// The model of a [`StopCondition`].
pub struct StopConditionView {
    /// The words of the stop trie of the language, when there is one.
    pub stop_words: Option<Set<Seq<u8>>>,
    /// The words of the stop trie of the generation style, when there is one.
    pub extra_stop_words: Option<Set<Seq<u8>>>,
    /// The prompt and all text generated so far, reversed.
    pub reversed_text: Seq<char>,
    /// The number of pieces of text given so far.
    pub num_decoded: nat,
    /// For a step list in line comments: the generated text so far, in order.
    pub forward_text: Seq<char>,
    /// For a step list in line comments: the line comment marker.
    pub stochastic_line_marker: Option<Seq<char>>,
}

/// Decides, as generated text streams in, when to stop: at a stop word of the language, at
/// a stop word of the generation style, or when a step list written in line comments is
/// left.
pub struct StopCondition {
    stop_trie: Option<Arc<Trie<u8>>>,
    extra_stop_trie: Option<Trie<u8>>,
    reversed_text: String,
    num_decoded: usize,
    forward_text: String,
    stochastic_line_marker: Option<String>,
}

/// The words of an optional shared trie.
pub open spec fn shared_trie_words(t: Option<Arc<Trie<u8>>>) -> Option<Set<Seq<u8>>> {
    match t {
        Some(t) => Some(trie_words(*t)),
        None => None,
    }
}

/// The words of an optional trie.
pub open spec fn opt_trie_words(t: Option<Trie<u8>>) -> Option<Set<Seq<u8>>> {
    match t {
        Some(t) => Some(trie_words(t)),
        None => None,
    }
}

impl View for StopCondition {
    type V = StopConditionView;

    closed spec fn view(&self) -> StopConditionView {
        StopConditionView {
            stop_words: shared_trie_words(self.stop_trie),
            extra_stop_words: opt_trie_words(self.extra_stop_trie),
            reversed_text: self.reversed_text@,
            num_decoded: self.num_decoded as nat,
            forward_text: self.forward_text@,
            stochastic_line_marker: match self.stochastic_line_marker {
                Some(m) => Some(m@),
                None => None,
            },
        }
    }
}

/// The state and answer after `new_text` is given to a stop condition in state `s`. An empty
/// piece never stops. Otherwise the text so far grows by it, and the answer is, in this
/// order of preference: the longest stop word of the language that ends the text, the
/// longest stop word of the style that ends it (both as a number of bytes), or, for a step
/// list in line comments, the end of the list; else no stop.
pub open spec fn next_stop_state(s: StopConditionView, new_text: Seq<char>) -> (
    StopConditionView,
    (bool, nat),
) {
    let counted = StopConditionView { num_decoded: s.num_decoded + 1, ..s };
    if new_text.len() == 0 {
        (counted, (false, 0))
    } else {
        let rev = new_text.reverse() + s.reversed_text;
        let q = encode_utf8(rev);
        let grown = StopConditionView { reversed_text: rev, ..counted };
        let a = trie_match(s.stop_words, q);
        let b = trie_match(s.extra_stop_words, q);
        if a > 0 {
            (grown, (true, a))
        } else if b > 0 {
            (grown, (true, b))
        } else {
            match s.stochastic_line_marker {
                Some(m) => {
                    let fwd = s.forward_text + new_text;
                    let moved = StopConditionView { forward_text: fwd, ..grown };
                    match stochastic_line_end(encode_utf8(fwd), encode_utf8(m)) {
                        Some(k) => (moved, (true, k)),
                        None => (moved, (false, 0)),
                    }
                },
                None => (grown, (false, 0)),
            }
        }
    }
}

/// The state of a fresh stop condition.
pub open spec fn fresh_stop_state(
    stop_words: Option<Set<Seq<u8>>>,
    extra_stop_words: Option<Set<Seq<u8>>>,
    text: Seq<char>,
    marker: Option<Seq<char>>,
) -> StopConditionView {
    StopConditionView {
        stop_words,
        extra_stop_words,
        reversed_text: text.reverse(),
        num_decoded: 0,
        forward_text: Seq::empty(),
        stochastic_line_marker: marker,
    }
}

impl StopCondition {
    /// A stop condition that stops at the words of `stop_trie`, after the prompt `text`.
    pub fn new(stop_trie: Option<Arc<Trie<u8>>>, text: &str) -> (r: StopCondition)
        ensures
            r@ == fresh_stop_state(shared_trie_words(stop_trie), None, text@, None),
    {
        let r = StopCondition {
            stop_trie,
            extra_stop_trie: None,
            reversed_text: reverse(text),
            num_decoded: 0,
            forward_text: String::new(),
            stochastic_line_marker: None,
        };
        assert(r@ =~~= fresh_stop_state(shared_trie_words(stop_trie), None, text@, None));
        r
    }

    /// A stop condition that also stops at the words of `extra_stop_trie`.
    fn new_with_extra_trie(
        stop_trie: Option<Arc<Trie<u8>>>,
        extra_stop_trie: Option<Trie<u8>>,
        text: &str,
    ) -> (r: StopCondition)
        ensures
            r@ == fresh_stop_state(
                shared_trie_words(stop_trie),
                opt_trie_words(extra_stop_trie),
                text@,
                None,
            ),
    {
        let r = StopCondition {
            stop_trie,
            extra_stop_trie,
            reversed_text: reverse(text),
            num_decoded: 0,
            forward_text: String::new(),
            stochastic_line_marker: None,
        };
        assert(r@ =~~= fresh_stop_state(
            shared_trie_words(stop_trie),
            opt_trie_words(extra_stop_trie),
            text@,
            None,
        ));
        r
    }

    /// A stop condition for a step list written in line comments with `marker`: it also
    /// stops when, in the text generated after the prompt, a line does not begin like the
    /// marker.
    pub fn new_with_stochastic_line(
        stop_trie: Option<Arc<Trie<u8>>>,
        marker: String,
        text: &str,
    ) -> (r: StopCondition)
        ensures
            r@ == fresh_stop_state(shared_trie_words(stop_trie), None, text@, Some(marker@)),
    {
        let r = StopCondition {
            stop_trie,
            extra_stop_trie: None,
            reversed_text: reverse(text),
            num_decoded: 0,
            forward_text: String::new(),
            stochastic_line_marker: Some(marker),
        };
        assert(r@ =~~= fresh_stop_state(shared_trie_words(stop_trie), None, text@, Some(marker@)));
        r
    }

    /// Takes the next piece of generated text. Returns whether to stop, and how many bytes
    /// to cut from the end of the generated text when stopping.
    pub fn should_stop(&mut self, new_text: &str) -> (r: (bool, usize))
        requires
            old(self)@.num_decoded < usize::MAX,
        ensures
            final(self)@ == next_stop_state(old(self)@, new_text@).0,
            r.0 == next_stop_state(old(self)@, new_text@).1.0,
            r.1 == next_stop_state(old(self)@, new_text@).1.1,
    {
        let ghost s = self@;
        self.num_decoded = self.num_decoded + 1;
        if !new_text.is_empty() {
            let rev = reverse(new_text).concat(self.reversed_text.as_str());
            self.reversed_text = rev;
            let ghost q = encode_utf8(self.reversed_text@);
            if let Some(re) = &self.stop_trie {
                let matched_length = longest_match(&**re, self.reversed_text.as_str().as_bytes());
                if matched_length > 0 {
                    assert(self@ =~~= next_stop_state(s, new_text@).0);
                    return (true, matched_length);
                }
            }
            if let Some(extra) = &self.extra_stop_trie {
                let matched_length = longest_match(extra, self.reversed_text.as_str().as_bytes());
                if matched_length > 0 {
                    assert(self@ =~~= next_stop_state(s, new_text@).0);
                    return (true, matched_length);
                }
            }
            if let Some(marker) = &self.stochastic_line_marker {
                self.forward_text.append(new_text);
                if let Some(matched) = check_stochastic_line_end(
                    self.forward_text.as_str(),
                    marker.as_str(),
                ) {
                    assert(self@ =~~= next_stop_state(s, new_text@).0);
                    return (true, matched);
                }
            }
        }
        assert(self@ =~~= next_stop_state(s, new_text@).0);
        (false, 0)
    }
}

#[verifier::external_type_specification]
#[verifier::external_body]
#[verifier::reject_recursive_types(K)]
#[verifier::reject_recursive_types(V)]
#[verifier::reject_recursive_types(S)]
pub struct ExDashMap<K, V, S>(DashMap<K, V, S>);

#[verifier::external_type_specification]
#[verifier::external_body]
#[verifier::reject_recursive_types(K)]
#[verifier::reject_recursive_types(V)]
#[verifier::reject_recursive_types(S)]
pub struct ExRef<'a, K, V, S>(Ref<'a, K, V, S>);

/// `DashMap::new`: an empty cache of stop tries.
#[verifier::external_body]
fn cache_new() -> DashMap<String, CachedStopTrie> {
    DashMap::new()
}

/// `DashMap::get`: the entry of the cache for `key`, when there is one. The cache is shared
/// and changes behind `&self`, so nothing is stated of what comes back.
#[verifier::external_body]
fn cache_get<'a>(cache: &'a DashMap<String, CachedStopTrie>, key: &str) -> Option<
    Ref<'a, String, CachedStopTrie>,
> {
    cache.get(key)
}

/// `Ref::value`: the value of a cache entry. The entry reads a map that other callers share,
/// so nothing is stated of it beyond what every cached value keeps (its type invariant).
#[verifier::external_body]
fn cached_value<'b>(entry: &'b Ref<'_, String, CachedStopTrie>) -> &'b CachedStopTrie {
    entry.value()
}

/// `DashMap::insert`: puts `value` in the cache under `key`.
#[verifier::external_body]
fn cache_insert(cache: &DashMap<String, CachedStopTrie>, key: String, value: CachedStopTrie) {
    cache.insert(key, value);
}

/// The stop words of a completion in `language` with the stop words of the model appended.
pub open spec fn combined_stop_words(language: Seq<Seq<char>>, model: Seq<Seq<char>>) -> Seq<
    Seq<char>,
> {
    language + model
}

/// A cached stop trie, with the stop words it was built from.
pub struct CachedStopTrie {
    words: Vec<String>,
    trie: Arc<Trie<u8>>,
}

impl CachedStopTrie {
    #[verifier::type_invariant]
    spec fn built_from_words(self) -> bool {
        trie_words(*self.trie) == stop_trie_words(string_views(self.words@))
    }
}

/// A copy of a list of texts.
fn copy_words(v: &Vec<String>) -> (r: Vec<String>)
    ensures
        string_views(r@) == string_views(v@),
{
    let r = v.clone();
    assert forall|i: int| 0 <= i < r@.len() implies r@[i]@ == v@[i]@ by {
        assert(vstd::pervasive::cloned(v@[i], r@[i]));
    }
    assert(string_views(r@) =~= string_views(v@));
    r
}

/// Whether two lists hold the same texts, in the same order.
fn same_words(a: &Vec<String>, b: &Vec<String>) -> (r: bool)
    ensures
        r == (string_views(a@) == string_views(b@)),
{
    if a.len() != b.len() {
        assert(string_views(a@).len() != string_views(b@).len());
        return false;
    }
    let mut i: usize = 0;
    while i < a.len()
        invariant
            i <= a@.len(),
            a@.len() == b@.len(),
            forall|j: int| 0 <= j < i ==> a@[j]@ == b@[j]@,
        decreases a@.len() - i,
    {
        if !same_text(a[i].as_str(), b[i].as_str()) {
            assert(string_views(a@)[i as int] != string_views(b@)[i as int]);
            return false;
        }
        i = i + 1;
    }
    assert(string_views(a@) =~= string_views(b@));
    true
}

/// Makes stop conditions, keeping one stop trie per language name in a shared cache.
pub struct StopConditionFactory {
    stop_trie_cache: DashMap<String, CachedStopTrie>,
    stop_words_from_model_config: Vec<String>,
}

impl StopConditionFactory {
    /// The stop words of the model, which every language's stop trie also holds.
    pub closed spec fn model_stop_words(&self) -> Seq<Seq<char>> {
        string_views(self.stop_words_from_model_config@)
    }

    /// A factory whose stop tries also hold the stop words of the model.
    pub fn with_stop_words(stop_words: Vec<String>) -> (r: StopConditionFactory)
        ensures
            r.model_stop_words() == string_views(stop_words@),
    {
        StopConditionFactory {
            stop_trie_cache: cache_new(),
            stop_words_from_model_config: stop_words,
        }
    }

    /// The stop trie of `language`: the trie of the language's stop words with the model's
    /// appended, taken from the cache when the cache holds one built from the same words
    /// under the language's main name, else built and kept there.
    fn get_trie(&self, language: &Language) -> (r: Option<Arc<Trie<u8>>>)
        requires
            language@.languages.len() > 0,
        ensures
            r matches Some(t) && trie_words(*t) == stop_trie_words(
                combined_stop_words(language@.stop_words(), self.model_stop_words()),
            ),
    {
        let mut stop_words = language.get_stop_words();
        let ghost lang_words = string_views(stop_words@);
        let mut model = copy_words(&self.stop_words_from_model_config);
        stop_words.append(&mut model);
        assert(string_views(stop_words@) =~= combined_stop_words(lang_words, self.model_stop_words()));
        assert(stop_words@.len() >= crate::languages::default_stop_words().len());
        if stop_words.len() == 0 {
            None
        } else {
            let hashkey = String::from_str(language.language());
            if let Some(entry) = cache_get(&self.stop_trie_cache, hashkey.as_str()) {
                let cached = cached_value(&entry);
                proof {
                    use_type_invariant(cached);
                }
                if same_words(&cached.words, &stop_words) {
                    return Some(share_trie(&cached.trie));
                }
            }
            let kept_words = copy_words(&stop_words);
            let trie = Arc::new(create_stop_trie(stop_words));
            let kept = CachedStopTrie { words: kept_words, trie: share_trie(&trie) };
            cache_insert(&self.stop_trie_cache, hashkey, kept);
            Some(trie)
        }
    }
}

/// What a generation style adds to the stop words of the language.
pub enum StopPlan {
    /// Also stop at these words (none: only the language's).
    Words(Vec<String>),
    /// Also stop when a step list written in line comments with this marker is left.
    StochasticLine(String),
}

/// The model of a [`StopPlan`].
pub enum StopPlanView {
    Words(Seq<Seq<char>>),
    StochasticLine(Seq<char>),
}

impl View for StopPlan {
    type V = StopPlanView;

    open spec fn view(&self) -> StopPlanView {
        match self {
            StopPlan::Words(w) => StopPlanView::Words(string_views(w@)),
            StopPlan::StochasticLine(m) => StopPlanView::StochasticLine(m@),
        }
    }
}

/// What the generation style `style` adds for a language that writes comments as `markers`:
/// a step list (`stochastic`) ends when a line leaves the line comment, or at the closing
/// block marker; a hint ends at the first newline, or at the closing block marker; a
/// pseudocode block ends at its `END` line, or at the closing block marker. Any other style
/// (`code` among them), and any style for a language without comments, adds nothing.
pub open spec fn stop_plan(style: Seq<char>, markers: CommentMarkers) -> StopPlanView {
    if style == "stochastic"@ {
        match markers {
            CommentMarkers::Line(m) => StopPlanView::StochasticLine(m),
            CommentMarkers::Block(_, e) => StopPlanView::Words(seq![e]),
            CommentMarkers::Absent => StopPlanView::Words(Seq::empty()),
        }
    } else if style == "hint"@ {
        match markers {
            CommentMarkers::Line(_) => StopPlanView::Words(seq![seq!['\n']]),
            CommentMarkers::Block(_, e) => StopPlanView::Words(seq![e]),
            CommentMarkers::Absent => StopPlanView::Words(Seq::empty()),
        }
    } else if style == "pseudocode"@ {
        match markers {
            CommentMarkers::Line(m) => StopPlanView::Words(seq![on_new_line(m) + " END"@]),
            CommentMarkers::Block(_, e) => StopPlanView::Words(seq![e]),
            CommentMarkers::Absent => StopPlanView::Words(Seq::empty()),
        }
    } else {
        StopPlanView::Words(Seq::empty())
    }
}

/// One word, as a list.
fn single(word: &str) -> (r: Vec<String>)
    ensures
        string_views(r@) == seq![word@],
{
    let mut v: Vec<String> = Vec::new();
    v.push(String::from_str(word));
    assert(string_views(v@) =~= seq![word@]);
    v
}

/// A plan that adds nothing.
fn empty_plan() -> (r: StopPlan)
    ensures
        r@ == StopPlanView::Words(Seq::empty()),
{
    let v: Vec<String> = Vec::new();
    assert(string_views(v@) =~= Seq::<Seq<char>>::empty());
    StopPlan::Words(v)
}

/// What the generation style `style` adds for a language that writes comments as `comment`.
pub fn plan_for_style(style: &str, comment: &CommentStyle) -> (r: StopPlan)
    ensures
        r@ == stop_plan(style@, comment@),
{
    if same_text(style, "stochastic") {
        match comment {
            CommentStyle::Line(m) => StopPlan::StochasticLine(String::from_str(m)),
            CommentStyle::Block(_, e) => StopPlan::Words(single(e)),
            CommentStyle::NoComment => empty_plan(),
        }
    } else if same_text(style, "hint") {
        match comment {
            CommentStyle::Line(_) => {
                proof {
                    reveal_strlit("\n");
                    assert("\n"@ =~= seq!['\n']);
                }
                StopPlan::Words(single("\n"))
            },
            CommentStyle::Block(_, e) => StopPlan::Words(single(e)),
            CommentStyle::NoComment => empty_plan(),
        }
    } else if same_text(style, "pseudocode") {
        match comment {
            CommentStyle::Line(m) => {
                let mut w = String::from_str("\n");
                proof {
                    reveal_strlit("\n");
                }
                assert("\n"@ =~= seq!['\n']);
                w.append(m);
                w.append(" END");
                let mut v: Vec<String> = Vec::new();
                v.push(w);
                assert(string_views(v@) =~= seq![on_new_line(m@) + " END"@]);
                StopPlan::Words(v)
            },
            CommentStyle::Block(_, e) => StopPlan::Words(single(e)),
            CommentStyle::NoComment => empty_plan(),
        }
    } else {
        empty_plan()
    }
}

impl StopConditionFactory {
    /// A stop condition after the prompt `text`, stopping at the stop words of `language`
    /// (and of the model), when a language is given.
    pub fn create(&self, text: &str, language: Option<&Language>) -> (r: StopCondition)
        requires
            language matches Some(l) ==> l@.languages.len() > 0,
        ensures
            r@.stop_words is Some <==> language is Some,
            language matches Some(l) ==> r@.stop_words == Some(
                stop_trie_words(combined_stop_words(l@.stop_words(), self.model_stop_words())),
            ),
            r@.extra_stop_words is None,
            r@.stochastic_line_marker is None,
            r@.reversed_text == text@.reverse(),
            r@.forward_text == Seq::<char>::empty(),
            r@.num_decoded == 0,
    {
        if let Some(language) = language {
            StopCondition::new(self.get_trie(language), text)
        } else {
            StopCondition::new(None, text)
        }
    }

    /// A stop condition after the prompt `text` for the generation style `style`: with a
    /// language, it stops at the language's (and the model's) stop words and at what the
    /// style adds for the language's comments (see [`stop_plan`]); without one, as
    /// [`Self::create`] does.
    pub fn create_with_style(&self, text: &str, language: Option<&Language>, style: &str) -> (r:
        StopCondition)
        requires
            language matches Some(l) ==> l@.languages.len() > 0,
        ensures
            r@.stop_words is Some <==> language is Some,
            language matches Some(l) ==> r@.stop_words == Some(
                stop_trie_words(combined_stop_words(l@.stop_words(), self.model_stop_words())),
            ),
            r@.reversed_text == text@.reverse(),
            r@.num_decoded == 0,
            language is None ==> {
                &&& r@.extra_stop_words is None
                &&& r@.stochastic_line_marker is None
                &&& r@.forward_text == Seq::<char>::empty()
            },
            language matches Some(l) ==> match stop_plan(style@, l@.comment_markers()) {
                StopPlanView::Words(ws) => {
                    &&& r@.extra_stop_words == (if ws.len() == 0 {
                        None
                    } else {
                        Some(stop_trie_words(ws))
                    })
                    &&& r@.stochastic_line_marker is None
                    &&& r@.forward_text == Seq::<char>::empty()
                },
                StopPlanView::StochasticLine(m) => {
                    &&& r@.extra_stop_words is None
                    &&& r@.stochastic_line_marker == Some(m)
                    &&& r@.forward_text == Seq::<char>::empty()
                },
            },
    {
        if same_text(style, "code") {
            proof {
                if let Some(l) = language {
                    crate::laws::law_code_style_adds_nothing(l@.comment_markers());
                }
            }
            return self.create(text, language);
        }
        let language = match language {
            Some(language) => language,
            None => {
                return self.create(text, None);
            },
        };
        let comment = language.comment_style();
        match plan_for_style(style, &comment) {
            StopPlan::StochasticLine(m) => {
                let cached = self.get_trie(language);
                StopCondition::new_with_stochastic_line(cached, m, text)
            },
            StopPlan::Words(extra) => {
                let cached_trie = self.get_trie(language);
                if extra.len() == 0 {
                    return StopCondition::new(cached_trie, text);
                }
                let extra_trie = create_stop_trie(extra);
                StopCondition::new_with_extra_trie(cached_trie, Some(extra_trie), text)
            },
        }
    }
}

impl Default for StopConditionFactory {
    fn default() -> (r: StopConditionFactory)
        ensures
            r.model_stop_words() == Seq::<Seq<char>>::empty(),
    {
        let r = StopConditionFactory {
            stop_trie_cache: cache_new(),
            stop_words_from_model_config: Vec::new(),
        };
        assert(r.model_stop_words() =~= Seq::<Seq<char>>::empty());
        r
    }
}

} // verus!
