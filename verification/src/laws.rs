//! What holds of the library as a whole, across its functions.

use crate::decoding::{
    next_stop_state, reversed_bytes, stochastic_line_end, stop_plan, stop_trie_words,
    trie_match, leaves_marker, first_leaving, line_after, line_end, lemma_line_end,
    lemma_line_end_at, lemma_neither_prefix, StopConditionView, StopPlanView, stop_entries, longest_prefix_in,
    lemma_longest_prefix_in, combined_stop_words, fresh_stop_state,
};
use crate::languages::{
    all_names, first_repeat, has_ext, has_name, is_first_named, is_first_with_ext,
    named_when_extended, resolve_extension, resolve_language, unknown_language_view,
    CommentMarkers, LanguageView, default_stop_words,
};
use crate::trie::{is_prefix, pushed_nodes, pushed_words};
use vstd::prelude::*;
use vstd::utf8::encode_utf8;

verus! {

/// UTF-8 encodes a concatenation piece by piece.
pub proof fn lemma_encode_utf8_concat(a: Seq<char>, b: Seq<char>)
    ensures
        encode_utf8(a + b) == encode_utf8(a) + encode_utf8(b),
    decreases a.len(),
{
    if a.len() == 0 {
        assert(a + b =~= b);
        assert(encode_utf8(a) =~= Seq::<u8>::empty());
        assert(encode_utf8(a) + encode_utf8(b) =~= encode_utf8(b));
    } else {
        assert((a + b)[0] == a[0]);
        assert((a + b).drop_first() =~= a.drop_first() + b);
        lemma_encode_utf8_concat(a.drop_first(), b);
        assert(encode_utf8(a + b) =~= encode_utf8(a) + encode_utf8(b));
    }
}

/// A non-empty text encodes to non-empty bytes.
pub proof fn lemma_encode_utf8_nonempty(a: Seq<char>)
    requires
        a.len() > 0,
    ensures
        encode_utf8(a).len() > 0,
{
    assert(encode_utf8(a) == vstd::utf8::encode_scalar(a[0] as u32) + encode_utf8(a.drop_first()));
}

/// A stop word at the end of the text is found by a trie that records it: the answer is at
/// least as long as the word.
pub proof fn law_stop_word_at_end_is_found(words: Set<Seq<u8>>, before: Seq<char>, w: Seq<char>)
    requires
        w.len() > 0,
        words.contains(reversed_bytes(w)),
    ensures
        trie_match(Some(words), encode_utf8((before + w).reverse())) >= reversed_bytes(w).len() > 0,
{
    let q = encode_utf8((before + w).reverse());
    assert((before + w).reverse() =~= w.reverse() + before.reverse());
    lemma_encode_utf8_concat(w.reverse(), before.reverse());
    lemma_encode_utf8_nonempty(w.reverse());
    let k = reversed_bytes(w).len() as int;
    assert(q.take(k) =~= reversed_bytes(w));
    lemma_longest_prefix_at_least(words, q, q.len() as int, k);
}

proof fn lemma_longest_prefix_at_least(words: Set<Seq<u8>>, q: Seq<u8>, n: int, k: int)
    requires
        0 < k <= n <= q.len(),
        words.contains(q.take(k)),
    ensures
        longest_prefix_in(words, q, n) >= k,
    decreases n,
{
    if !words.contains(q.take(n)) {
        lemma_longest_prefix_at_least(words, q, n - 1, k);
    }
}

/// The reverse of a reverse is the original.
proof fn lemma_reverse_reverse(a: Seq<char>)
    ensures
        a.reverse().reverse() == a,
{
    assert(a.reverse().reverse() =~= a);
}

/// Generation stops as soon as the text so far (the prompt and all pieces given) ends with a
/// stop word that the language's or the style's trie records.
pub proof fn law_stop_word_stops_generation(
    s: StopConditionView,
    new_text: Seq<char>,
    before: Seq<char>,
    w: Seq<char>,
)
    requires
        new_text.len() > 0,
        w.len() > 0,
        s.reversed_text.reverse() + new_text == before + w,
        (s.stop_words matches Some(ws) && ws.contains(reversed_bytes(w))) || (
        s.extra_stop_words matches Some(ws) && ws.contains(reversed_bytes(w))),
    ensures
        next_stop_state(s, new_text).1.0,
        next_stop_state(s, new_text).1.1 > 0,
        next_stop_state(s, new_text).0.reversed_text == (before + w).reverse(),
{
    lemma_reverse_reverse(s.reversed_text);
    let text = s.reversed_text.reverse() + new_text;
    assert(text.reverse() =~= new_text.reverse() + s.reversed_text.reverse().reverse());
    assert(new_text.reverse() + s.reversed_text == (before + w).reverse());
    if let Some(ws) = s.stop_words {
        if ws.contains(reversed_bytes(w)) {
            law_stop_word_at_end_is_found(ws, before, w);
        }
    }
    if let Some(ws) = s.extra_stop_words {
        if ws.contains(reversed_bytes(w)) {
            law_stop_word_at_end_is_found(ws, before, w);
        }
    }
}

/// `t` ends with `w`.
pub open spec fn ends_with(t: Seq<char>, w: Seq<char>) -> bool {
    w.len() <= t.len() && t.skip(t.len() - w.len()) == w
}

/// The words `words` stands for hold `w`, under its reversed bytes.
pub open spec fn records(words: Option<Set<Seq<u8>>>, w: Seq<char>) -> bool {
    words matches Some(x) && x.contains(reversed_bytes(w))
}

/// Every entry of `words` is the reversed bytes of some text.
pub open spec fn holds_reversed_texts(words: Option<Set<Seq<u8>>>) -> bool {
    words matches Some(x) ==> forall|b: Seq<u8>|
        #[trigger] x.contains(b) ==> exists|w: Seq<char>| b == #[trigger] reversed_bytes(w)
}

proof fn lemma_ends_with_reverse(t: Seq<char>, w: Seq<char>)
    ensures
        ends_with(t, w) <==> (w.len() <= t.len() && t.reverse().take(w.len() as int)
            == w.reverse()),
{
    let n = t.len() as int;
    let m = w.len() as int;
    if m <= n {
        if ends_with(t, w) {
            assert forall|i: int| 0 <= i < m implies t.reverse().take(m)[i] == w.reverse()[i] by {
                assert(t.skip(n - m)[m - 1 - i] == w[m - 1 - i]);
            }
            assert(t.reverse().take(m) =~= w.reverse());
        }
        if t.reverse().take(m) == w.reverse() {
            assert forall|j: int| 0 <= j < m implies t.skip(n - m)[j] == w[j] by {
                assert(t.reverse().take(m)[m - 1 - j] == w.reverse()[m - 1 - j]);
            }
            assert(t.skip(n - m) =~= w);
        }
    }
}

/// When the encoding of `a` begins the encoding of `b`, `a` begins `b`: UTF-8 is free of
/// prefixes at the level of characters.
proof fn lemma_utf8_prefix(a: Seq<char>, b: Seq<char>)
    requires
        is_prefix(encode_utf8(a), encode_utf8(b)),
    ensures
        a.len() <= b.len(),
        b.take(a.len() as int) == a,
    decreases a.len(),
{
    if a.len() == 0 {
        assert(b.take(0) =~= a);
    } else {
        let ea = encode_utf8(a);
        let eb = encode_utf8(b);
        lemma_encode_utf8_nonempty(a);
        if b.len() == 0 {
            assert(eb.len() == 0);
        }
        assert forall|i: int| 0 <= i < ea.len() implies ea[i] == eb[i] by {
            assert(eb.take(ea.len() as int)[i] == eb[i]);
        }
        vstd::utf8::encode_utf8_first_scalar(a);
        vstd::utf8::encode_utf8_first_scalar(b);
        let ha = vstd::utf8::encode_scalar(a[0] as u32);
        let hb = vstd::utf8::encode_scalar(b[0] as u32);
        let ra = encode_utf8(a.drop_first());
        let rb = encode_utf8(b.drop_first());
        assert(ea == ha + ra);
        assert(eb == hb + rb);
        assert(ea[0] == eb[0]);
        let l = vstd::utf8::length_of_first_scalar(ea);
        assert(vstd::utf8::length_of_first_scalar(eb) == l);
        assert(l <= ea.len());
        if l >= 2 {
            assert(ea[1] == eb[1]);
        }
        if l >= 3 {
            assert(ea[2] == eb[2]);
        }
        if l >= 4 {
            assert(ea[3] == eb[3]);
        }
        assert(vstd::utf8::decode_first_scalar(ea) == vstd::utf8::decode_first_scalar(eb));
        let u = a[0] as u32;
        vstd::utf8::char_u32_cast(a[0], u);
        vstd::utf8::char_u32_cast(b[0], u);
        assert(a[0] == b[0]);
        assert(ha.len() == l && hb.len() == l);
        assert(ra =~= ea.skip(l));
        assert(rb =~= eb.skip(l));
        assert(rb.take(ra.len() as int) =~= ra) by {
            assert forall|i: int| 0 <= i < ra.len() implies rb.take(ra.len() as int)[i] == ra[i] by {
                assert(ea[l + i] == eb[l + i]);
            }
        }
        lemma_utf8_prefix(a.drop_first(), b.drop_first());
        assert forall|i: int| 0 <= i < a.len() implies b.take(a.len() as int)[i] == a[i] by {
            if i > 0 {
                assert(b.drop_first().take(a.len() - 1)[i - 1] == a.drop_first()[i - 1]);
            }
        }
        assert(b.take(a.len() as int) =~= a);
    }
}

/// A text ends with a word exactly when the UTF-8 bytes of the reversed text begin with the
/// word's reversed bytes, the form under which stop words are kept.
pub proof fn law_ends_with_iff_reversed_prefix(t: Seq<char>, w: Seq<char>)
    ensures
        ends_with(t, w) <==> is_prefix(reversed_bytes(w), encode_utf8(t.reverse())),
{
    lemma_ends_with_reverse(t, w);
    let m = w.len() as int;
    if ends_with(t, w) {
        let rest = t.reverse().skip(m);
        assert(t.reverse() =~= w.reverse() + rest);
        lemma_encode_utf8_concat(w.reverse(), rest);
        let k = reversed_bytes(w).len() as int;
        assert(encode_utf8(t.reverse()).take(k) =~= reversed_bytes(w));
    }
    if is_prefix(reversed_bytes(w), encode_utf8(t.reverse())) {
        lemma_utf8_prefix(w.reverse(), t.reverse());
    }
}

proof fn lemma_pushed_words_from(es: Seq<Seq<u8>>, x: Seq<u8>)
    requires
        pushed_words(es).contains(x),
    ensures
        x.len() > 0,
        exists|j: int| 0 <= j < es.len() && es[j] == x,
    decreases es.len(),
{
    let prev = es.drop_last();
    if pushed_words(prev).contains(x) {
        lemma_pushed_words_from(prev, x);
        let j = choose|j: int| 0 <= j < prev.len() && prev[j] == x;
        assert(es[j] == x);
    } else {
        assert(es[es.len() - 1] == x);
    }
}

/// A trie built from stop words holds nothing but the reversed bytes of the non-empty words
/// it was given.
pub proof fn law_stop_trie_holds_only_given_words(ws: Seq<Seq<char>>)
    ensures
        forall|b: Seq<u8>| #[trigger]
            stop_trie_words(ws).contains(b) ==> exists|j: int|
                0 <= j < ws.len() && ws[j].len() > 0 && b == reversed_bytes(#[trigger] ws[j]),
        holds_reversed_texts(Some(stop_trie_words(ws))),
{
    let es = stop_entries(ws);
    assert forall|b: Seq<u8>| #[trigger] stop_trie_words(ws).contains(b) implies exists|j: int|
        0 <= j < ws.len() && ws[j].len() > 0 && b == reversed_bytes(#[trigger] ws[j]) by {
        lemma_pushed_words_from(es, b);
        let j = choose|j: int| 0 <= j < es.len() && es[j] == b;
        assert(b == reversed_bytes(ws[j]));
        if ws[j].len() == 0 {
            assert(ws[j].reverse() =~= Seq::<char>::empty());
            assert(reversed_bytes(ws[j]) =~= Seq::<u8>::empty());
        }
    }
    assert forall|b: Seq<u8>| #[trigger] stop_trie_words(ws).contains(b) implies exists|w: Seq<char>|
        b == #[trigger] reversed_bytes(w) by {
        let j = choose|j: int|
            0 <= j < ws.len() && ws[j].len() > 0 && b == reversed_bytes(#[trigger] ws[j]);
        assert(b == reversed_bytes(ws[j]));
    }
}

/// One of the two word sets finds a word at the start of `q` exactly when some non-empty
/// text that they hold, reversed, begins `q`.
proof fn lemma_match_iff_word(words: Option<Set<Seq<u8>>>, t: Seq<char>)
    requires
        holds_reversed_texts(words),
    ensures
        trie_match(words, encode_utf8(t.reverse())) > 0 <==> exists|w: Seq<char>|
            w.len() > 0 && #[trigger] ends_with(t, w) && records(words, w),
{
    let q = encode_utf8(t.reverse());
    if let Some(x) = words {
        let a = trie_match(words, q);
        lemma_longest_prefix_in(x, q, q.len() as int);
        if a > 0 {
            let b = q.take(a as int);
            assert(x.contains(b));
            let w = choose|w: Seq<char>| b == #[trigger] reversed_bytes(w);
            assert(is_prefix(reversed_bytes(w), q));
            law_ends_with_iff_reversed_prefix(t, w);
            if w.len() == 0 {
                assert(w.reverse() =~= Seq::<char>::empty());
                assert(reversed_bytes(w) =~= Seq::<u8>::empty());
            }
            assert(w.len() > 0 && ends_with(t, w) && records(words, w));
        }
        if exists|w: Seq<char>| w.len() > 0 && #[trigger] ends_with(t, w) && records(words, w) {
            let w = choose|w: Seq<char>| w.len() > 0 && #[trigger] ends_with(t, w) && records(words, w);
            law_ends_with_iff_reversed_prefix(t, w);
            lemma_encode_utf8_nonempty(w.reverse());
            let k = reversed_bytes(w).len() as int;
            lemma_longest_prefix_at_least(x, q, q.len() as int, k);
        }
    }
}

/// A piece of text stops generation exactly when it is not empty and, with it, the text so
/// far ends with a non-empty stop word of the language or of the style, or (for a step list
/// in line comments) the list has been left.
pub proof fn law_stops_iff_text_ends_with_stop_word(s: StopConditionView, new_text: Seq<char>)
    requires
        holds_reversed_texts(s.stop_words),
        holds_reversed_texts(s.extra_stop_words),
    ensures
        next_stop_state(s, new_text).1.0 <==> new_text.len() > 0 && ((exists|w: Seq<char>|
            w.len() > 0 && #[trigger] ends_with(s.reversed_text.reverse() + new_text, w) && (
            records(s.stop_words, w) || records(s.extra_stop_words, w))) || (
        s.stochastic_line_marker matches Some(m) && stochastic_line_end(
            encode_utf8(s.forward_text + new_text),
            encode_utf8(m),
        ) is Some)),
{
    if new_text.len() > 0 {
        let text = s.reversed_text.reverse() + new_text;
        lemma_reverse_reverse(s.reversed_text);
        assert(text.reverse() =~= new_text.reverse() + s.reversed_text);
        lemma_match_iff_word(s.stop_words, text);
        lemma_match_iff_word(s.extra_stop_words, text);
        if exists|w: Seq<char>|
            w.len() > 0 && #[trigger] ends_with(text, w) && (records(s.stop_words, w) || records(
                s.extra_stop_words,
                w,
            )) {
            let w = choose|w: Seq<char>|
                w.len() > 0 && #[trigger] ends_with(text, w) && (records(s.stop_words, w)
                    || records(s.extra_stop_words, w));
            if records(s.stop_words, w) {
                assert(w.len() > 0 && ends_with(text, w) && records(s.stop_words, w));
            } else {
                assert(w.len() > 0 && ends_with(text, w) && records(s.extra_stop_words, w));
            }
        }
    }
}

/// A reversed text has as many UTF-8 bytes as the text.
proof fn lemma_encode_reverse_len(a: Seq<char>)
    ensures
        encode_utf8(a.reverse()).len() == encode_utf8(a).len(),
    decreases a.len(),
{
    if a.len() == 0 {
        assert(a.reverse() =~= a);
    } else {
        let d = a.drop_first();
        assert(a.reverse() =~= d.reverse() + seq![a[0]]);
        lemma_encode_utf8_concat(d.reverse(), seq![a[0]]);
        assert(seq![a[0]].drop_first() =~= Seq::<char>::empty());
        assert(encode_utf8(seq![a[0]]) == vstd::utf8::encode_scalar(a[0] as u32) + encode_utf8(
            Seq::<char>::empty(),
        ));
        lemma_encode_reverse_len(d);
    }
}

/// `n` is the length in bytes of the longest text held by `words` that ends `t`: one such
/// text has that length and none is longer.
pub open spec fn longest_ending_word(words: Option<Set<Seq<u8>>>, t: Seq<char>, n: nat) -> bool {
    &&& exists|w: Seq<char>|
        w.len() > 0 && #[trigger] ends_with(t, w) && records(words, w) && encode_utf8(w).len() == n
    &&& forall|v: Seq<char>| #[trigger] ends_with(t, v) && records(words, v) ==> encode_utf8(v).len() <= n
}

proof fn lemma_match_is_longest(words: Option<Set<Seq<u8>>>, t: Seq<char>)
    requires
        holds_reversed_texts(words),
        trie_match(words, encode_utf8(t.reverse())) > 0,
    ensures
        longest_ending_word(words, t, trie_match(words, encode_utf8(t.reverse()))),
{
    let q = encode_utf8(t.reverse());
    let x = words->0;
    let a = trie_match(words, q);
    lemma_longest_prefix_in(x, q, q.len() as int);
    let b = q.take(a as int);
    assert(x.contains(b));
    let w = choose|w: Seq<char>| b == #[trigger] reversed_bytes(w);
    assert(is_prefix(reversed_bytes(w), q));
    law_ends_with_iff_reversed_prefix(t, w);
    lemma_encode_reverse_len(w);
    if w.len() == 0 {
        assert(w.reverse() =~= Seq::<char>::empty());
        assert(reversed_bytes(w) =~= Seq::<u8>::empty());
    }
    assert(w.len() > 0 && ends_with(t, w) && records(words, w) && encode_utf8(w).len() == a);
    assert forall|v: Seq<char>| #[trigger] ends_with(t, v) && records(words, v) implies encode_utf8(
        v,
    ).len() <= a by {
        law_ends_with_iff_reversed_prefix(t, v);
        lemma_encode_reverse_len(v);
        let k = reversed_bytes(v).len() as int;
        assert(q.take(k) == reversed_bytes(v));
        if k > 0 {
            assert(x.contains(q.take(k)));
        }
    }
}

/// When a piece stops generation at a stop word, the number of bytes to cut is the length
/// of the longest stop word of the language that ends the text so far; only when none of the
/// language's does, the length of the longest stop word of the style that ends it.
pub proof fn law_stop_length_is_longest_word(s: StopConditionView, new_text: Seq<char>)
    requires
        holds_reversed_texts(s.stop_words),
        holds_reversed_texts(s.extra_stop_words),
        new_text.len() > 0,
    ensures
        (exists|w: Seq<char>|
            w.len() > 0 && #[trigger] ends_with(s.reversed_text.reverse() + new_text, w) && records(
                s.stop_words,
                w,
            )) ==> {
            &&& next_stop_state(s, new_text).1.0
            &&& longest_ending_word(
                s.stop_words,
                s.reversed_text.reverse() + new_text,
                next_stop_state(s, new_text).1.1,
            )
        },
        (!exists|w: Seq<char>|
            w.len() > 0 && #[trigger] ends_with(s.reversed_text.reverse() + new_text, w) && records(
                s.stop_words,
                w,
            )) && (exists|w: Seq<char>|
            w.len() > 0 && #[trigger] ends_with(s.reversed_text.reverse() + new_text, w) && records(
                s.extra_stop_words,
                w,
            )) ==> {
            &&& next_stop_state(s, new_text).1.0
            &&& longest_ending_word(
                s.extra_stop_words,
                s.reversed_text.reverse() + new_text,
                next_stop_state(s, new_text).1.1,
            )
        },
{
    let text = s.reversed_text.reverse() + new_text;
    lemma_reverse_reverse(s.reversed_text);
    assert(text.reverse() =~= new_text.reverse() + s.reversed_text);
    lemma_match_iff_word(s.stop_words, text);
    lemma_match_iff_word(s.extra_stop_words, text);
    let q = encode_utf8(text.reverse());
    if trie_match(s.stop_words, q) > 0 {
        lemma_match_is_longest(s.stop_words, text);
    }
    if trie_match(s.extra_stop_words, q) > 0 {
        lemma_match_is_longest(s.extra_stop_words, text);
    }
}


/// Each piece of text is added to the text so far, whether or not it stops generation: the
/// text so far after a piece is the text before it followed by the piece. The words to stop
/// at and the comment marker stay as they were, and the count of pieces grows by one. For a
/// step list in line comments, a piece that does not stop is also added to the generated
/// text that the list's end is looked for in.
pub proof fn law_text_so_far_grows(s: StopConditionView, p: Seq<char>)
    ensures
        next_stop_state(s, p).0.reversed_text == p.reverse() + s.reversed_text,
        next_stop_state(s, p).0.reversed_text.reverse() == s.reversed_text.reverse() + p,
        next_stop_state(s, p).0.stop_words == s.stop_words,
        next_stop_state(s, p).0.extra_stop_words == s.extra_stop_words,
        next_stop_state(s, p).0.stochastic_line_marker == s.stochastic_line_marker,
        next_stop_state(s, p).0.num_decoded == s.num_decoded + 1,
        s.stochastic_line_marker is Some && !next_stop_state(s, p).1.0 ==> next_stop_state(
            s,
            p,
        ).0.forward_text == s.forward_text + p,
{
    if p.len() == 0 {
        assert(p.reverse() + s.reversed_text =~= s.reversed_text);
        assert(s.forward_text + p =~= s.forward_text);
    }
    lemma_reverse_reverse(p);
    assert((p.reverse() + s.reversed_text).reverse() =~= s.reversed_text.reverse() + p.reverse().reverse());
}

/// The state after the pieces `ps` are given in order, from state `s`.
pub open spec fn feed(s: StopConditionView, ps: Seq<Seq<char>>) -> StopConditionView
    decreases ps.len(),
{
    if ps.len() == 0 {
        s
    } else {
        next_stop_state(feed(s, ps.drop_last()), ps.last()).0
    }
}

/// None of the pieces `ps`, given in order from state `s`, stops generation.
pub open spec fn none_stops(s: StopConditionView, ps: Seq<Seq<char>>) -> bool {
    forall|k: int|
        0 <= k < ps.len() ==> !next_stop_state(#[trigger] feed(s, ps.take(k)), ps[k]).1.0
}

/// After any pieces, the text so far is the text before them followed by all of them, in
/// order; and, when none of them stopped generation, the generated text of a step list is
/// the one before them followed by all of them.
pub proof fn law_text_after_pieces(s: StopConditionView, ps: Seq<Seq<char>>)
    ensures
        feed(s, ps).reversed_text.reverse() == s.reversed_text.reverse() + ps.flatten(),
        feed(s, ps).stop_words == s.stop_words,
        feed(s, ps).extra_stop_words == s.extra_stop_words,
        feed(s, ps).stochastic_line_marker == s.stochastic_line_marker,
        s.stochastic_line_marker is Some && none_stops(s, ps) ==> feed(s, ps).forward_text
            == s.forward_text + ps.flatten(),
    decreases ps.len(),
{
    ps.lemma_flatten_and_flatten_alt_are_equivalent();
    if ps.len() == 0 {
        assert(s.reversed_text.reverse() + ps.flatten() =~= s.reversed_text.reverse());
        assert(s.forward_text + ps.flatten() =~= s.forward_text);
    } else {
        let prev = ps.drop_last();
        prev.lemma_flatten_and_flatten_alt_are_equivalent();
        law_text_after_pieces(s, prev);
        law_text_so_far_grows(feed(s, prev), ps.last());
        assert(ps.flatten() == prev.flatten() + ps.last());
        assert(s.reversed_text.reverse() + prev.flatten() + ps.last() =~= s.reversed_text.reverse()
            + ps.flatten());
        assert(s.forward_text + prev.flatten() + ps.last() =~= s.forward_text + ps.flatten());
        if none_stops(s, ps) {
            assert forall|k: int| 0 <= k < prev.len() implies !next_stop_state(
                #[trigger] feed(s, prev.take(k)),
                prev[k],
            ).1.0 by {
                assert(prev.take(k) =~= ps.take(k));
                assert(!next_stop_state(feed(s, ps.take(k)), ps[k]).1.0);
            }
            assert(ps.take(prev.len() as int) =~= prev);
            assert(!next_stop_state(feed(s, ps.take(prev.len() as int)), ps[prev.len() as int]).1.0);
        }
    }
}

/// After pieces that did not stop generation, the next piece stops it exactly when it is not
/// empty and the whole text so far (the text before the pieces, all of them, then it) ends
/// with a non-empty stop word of the language or of the style, or, for a step list in line
/// comments, the generated text (all the pieces, then it) has left the list.
pub proof fn law_stops_after_pieces(s: StopConditionView, ps: Seq<Seq<char>>, p: Seq<char>)
    requires
        holds_reversed_texts(s.stop_words),
        holds_reversed_texts(s.extra_stop_words),
        none_stops(s, ps),
    ensures
        next_stop_state(feed(s, ps), p).1.0 <==> p.len() > 0 && ((exists|w: Seq<char>|
            w.len() > 0 && #[trigger] ends_with(s.reversed_text.reverse() + ps.flatten() + p, w)
                && (records(s.stop_words, w) || records(s.extra_stop_words, w))) || (
        s.stochastic_line_marker matches Some(m) && stochastic_line_end(
            encode_utf8(s.forward_text + ps.flatten() + p),
            encode_utf8(m),
        ) is Some)),
{
    law_text_after_pieces(s, ps);
    law_stops_iff_text_ends_with_stop_word(feed(s, ps), p);
}

/// The words a language's stop trie is built from are all the stop words of the language,
/// in order, followed by all the stop words of the model, in order: none is dropped and
/// none is added.
pub proof fn law_factory_words(lw: Seq<Seq<char>>, mw: Seq<Seq<char>>)
    ensures
        combined_stop_words(lw, mw).len() == lw.len() + mw.len(),
        forall|i: int| 0 <= i < lw.len() ==> #[trigger] combined_stop_words(lw, mw)[i] == lw[i],
        forall|j: int|
            0 <= j < mw.len() ==> #[trigger] combined_stop_words(lw, mw)[lw.len() + j] == mw[j],
        forall|w: Seq<char>| lw.contains(w) ==> #[trigger] combined_stop_words(lw, mw).contains(w),
        forall|w: Seq<char>| mw.contains(w) ==> #[trigger] combined_stop_words(lw, mw).contains(w),
{
    let c = combined_stop_words(lw, mw);
    assert forall|w: Seq<char>| lw.contains(w) implies #[trigger] c.contains(w) by {
        let i = choose|i: int| 0 <= i < lw.len() && lw[i] == w;
        assert(c[i] == w);
    }
    assert forall|w: Seq<char>| mw.contains(w) implies #[trigger] c.contains(w) by {
        let j = choose|j: int| 0 <= j < mw.len() && mw[j] == w;
        assert(c[lw.len() + j] == w);
    }
}

/// The stop words of a language are the default ones, then its line comment marker after a
/// newline (when it has one), then each of its top-level keywords after a newline, whatever
/// its comment markers; and nothing else.
pub proof fn law_language_stop_words(l: LanguageView)
    ensures
        l.stop_words().len() == default_stop_words().len() + (if l.line_comment is Some {
            1int
        } else {
            0int
        }) + (match l.top_level_keywords {
            Some(k) => k.len() as int,
            None => 0int,
        }),
        forall|i: int|
            0 <= i < default_stop_words().len() ==> #[trigger] l.stop_words()[i]
                == default_stop_words()[i],
        l.line_comment matches Some(lc) ==> l.stop_words()[default_stop_words().len() as int]
            == seq!['\n'] + lc,
        l.line_comment matches Some(lc) ==> l.stop_words().contains(seq!['\n'] + lc),
        l.top_level_keywords matches Some(k) ==> forall|i: int|
            0 <= i < k.len() ==> l.stop_words().contains(seq!['\n'] + #[trigger] k[i]),
        forall|w: Seq<char>| #[trigger]
            l.stop_words().contains(w) ==> default_stop_words().contains(w) || (
            l.line_comment matches Some(lc) && w == seq!['\n'] + lc) || (
            l.top_level_keywords matches Some(k) && exists|i: int|
                0 <= i < k.len() && w == seq!['\n'] + #[trigger] k[i]),
{
    let d = default_stop_words();
    let c: Seq<Seq<char>> = match l.line_comment {
        Some(lc) => seq![seq!['\n'] + lc],
        None => Seq::empty(),
    };
    let kw: Seq<Seq<char>> = match l.top_level_keywords {
        Some(k) => k.map_values(|w: Seq<char>| seq!['\n'] + w),
        None => Seq::empty(),
    };
    assert(l.stop_words() =~= d + c + kw);
    let sw = l.stop_words();
    if let Some(lc) = l.line_comment {
        assert(sw[d.len() as int] == seq!['\n'] + lc);
    }
    if let Some(k) = l.top_level_keywords {
        assert forall|i: int| 0 <= i < k.len() implies sw.contains(seq!['\n'] + #[trigger] k[i]) by {
            assert(sw[d.len() + c.len() + i] == kw[i]);
        }
    }
    assert forall|w: Seq<char>| #[trigger] sw.contains(w) implies d.contains(w) || (
    l.line_comment matches Some(lc) && w == seq!['\n'] + lc) || (
    l.top_level_keywords matches Some(k) && exists|i: int|
        0 <= i < k.len() && w == seq!['\n'] + #[trigger] k[i]) by {
        let x = choose|x: int| 0 <= x < sw.len() && sw[x] == w;
        if x < d.len() {
            assert(d[x] == w);
        } else if x < d.len() + c.len() {
        } else {
            let k = l.top_level_keywords->0;
            let i = x - d.len() - c.len();
            assert(kw[i] == seq!['\n'] + k[i]);
        }
    }
}

/// What each generation style adds for each kind of comment: for a line marker `m`, `hint`
/// adds a newline, `pseudocode` adds a line `m END`, and `stochastic` ends the step list
/// by the marker `m`; for block markers, those three add the closing marker; without
/// comments, and for `code` or any other style, nothing is added.
pub proof fn law_style_table(style: Seq<char>, markers: CommentMarkers, m: Seq<char>)
    ensures
        stop_plan("hint"@, CommentMarkers::Line(m)) == StopPlanView::Words(seq![seq!['\n']]),
        stop_plan("pseudocode"@, CommentMarkers::Line(m)) == StopPlanView::Words(
            seq![seq!['\n'] + m + seq![' ', 'E', 'N', 'D']],
        ),
        stop_plan("stochastic"@, CommentMarkers::Line(m)) == StopPlanView::StochasticLine(m),
        markers is Block && (style == "hint"@ || style == "pseudocode"@ || style == "stochastic"@)
            ==> stop_plan(style, markers) == StopPlanView::Words(seq![markers->Block_1]),
        markers is Absent ==> stop_plan(style, markers) == StopPlanView::Words(Seq::empty()),
        !(style == "hint"@ || style == "pseudocode"@ || style == "stochastic"@) ==> stop_plan(
            style,
            markers,
        ) == StopPlanView::Words(Seq::empty()),
        "code"@ != "hint"@ && "code"@ != "pseudocode"@ && "code"@ != "stochastic"@,
{
    reveal_strlit("code");
    reveal_strlit("stochastic");
    reveal_strlit("hint");
    reveal_strlit("pseudocode");
    reveal_strlit(" END");
    assert("hint"@.len() == 4 && "stochastic"@.len() == 10 && "pseudocode"@.len() == 10);
    assert("stochastic"@[0] == 's' && "pseudocode"@[0] == 'p' && "hint"@[0] == 'h');
    assert("code"@.len() == 4 && "code"@[0] == 'c');
    assert(" END"@ =~= seq![' ', 'E', 'N', 'D']);
    assert(seq!['\n'] + m + " END"@ =~= seq!['\n'] + m + seq![' ', 'E', 'N', 'D']);
}

/// Both block comment markers are set and not empty.
pub open spec fn has_block_markers(l: LanguageView) -> bool {
    &&& l.block_comment_start is Some
    &&& l.block_comment_start->0.len() > 0
    &&& l.block_comment_end is Some
    &&& l.block_comment_end->0.len() > 0
}

/// The line comment marker is set and not empty.
pub open spec fn has_line_marker(l: LanguageView) -> bool {
    l.line_comment is Some && l.line_comment->0.len() > 0
}

/// The comment markers of a language: the block markers when both are set and not empty,
/// else the line marker when it is set and not empty, else none.
pub proof fn law_comment_markers(l: LanguageView)
    ensures
        has_block_markers(l) ==> l.comment_markers() == CommentMarkers::Block(
            l.block_comment_start->0,
            l.block_comment_end->0,
        ),
        !has_block_markers(l) && has_line_marker(l) ==> l.comment_markers()
            == CommentMarkers::Line(l.line_comment->0),
        !has_block_markers(l) && !has_line_marker(l) ==> l.comment_markers() is Absent,
{
}

/// A fresh stop condition holds the prompt as its text so far, the words and the marker it
/// was given, no generated text, and a count of zero pieces.
pub proof fn law_fresh_state(
    stop_words: Option<Set<Seq<u8>>>,
    extra_stop_words: Option<Set<Seq<u8>>>,
    text: Seq<char>,
    marker: Option<Seq<char>>,
)
    ensures
        fresh_stop_state(stop_words, extra_stop_words, text, marker).reversed_text.reverse() == text,
        fresh_stop_state(stop_words, extra_stop_words, text, marker).stop_words == stop_words,
        fresh_stop_state(stop_words, extra_stop_words, text, marker).extra_stop_words
            == extra_stop_words,
        fresh_stop_state(stop_words, extra_stop_words, text, marker).stochastic_line_marker
            == marker,
        fresh_stop_state(stop_words, extra_stop_words, text, marker).forward_text.len() == 0,
        fresh_stop_state(stop_words, extra_stop_words, text, marker).num_decoded == 0,
{
    lemma_reverse_reverse(text);
}

/// After the newline at `j`, the text differs from the marker `m` at some position of the
/// line that follows: a byte `t[r]`, with no newline between `j` and it, is not the byte of
/// the marker at the same distance from the newline.
pub open spec fn mismatch_after(t: Seq<u8>, m: Seq<u8>, j: int) -> bool {
    exists|r: int|
        j < r < t.len() && r - j - 1 < m.len() && #[trigger] t[r] != m[r - j - 1] && forall|q: int|
            j < q <= r ==> #[trigger] t[q] != 10u8
}

proof fn lemma_leaves_iff_mismatch(t: Seq<u8>, m: Seq<u8>, j: int)
    requires
        0 <= j < t.len(),
        t[j] == 10u8,
    ensures
        leaves_marker(t, m, j) <==> mismatch_after(t, m, j),
{
    lemma_line_end(t, j + 1);
    let e = line_end(t, j + 1);
    let line = line_after(t, j);
    lemma_neither_prefix(line, m);
    if leaves_marker(t, m, j) {
        let p = choose|p: int| 0 <= p < line.len() && p < m.len() && #[trigger] line[p] != m[p];
        let r = j + 1 + p;
        assert(line[p] == t[r]);
        assert(t[r] != m[r - j - 1]);
        assert forall|q: int| j < q <= r implies #[trigger] t[q] != 10u8 by {}
    }
    if mismatch_after(t, m, j) {
        let r = choose|r: int|
            j < r < t.len() && r - j - 1 < m.len() && #[trigger] t[r] != m[r - j - 1] && forall|
                q: int,
            | j < q <= r ==> #[trigger] t[q] != 10u8;
        if e <= r {
            assert(t[e] != 10u8);
        }
        let p = r - j - 1;
        assert(line[p] == t[r]);
        assert(line[p] != m[p]);
    }
}

/// The end of a step list, byte by byte: the cut starts at a newline after which, before
/// any other newline, the text differs from the comment marker; after every newline before
/// it (and, when there is no end, after every newline) the text agrees with the marker as
/// far as both go on that line.
pub proof fn law_step_list_end_bytes(t: Seq<u8>, m: Seq<u8>)
    ensures
        stochastic_line_end(t, m) matches Some(k) ==> {
            &&& 1 <= k <= t.len()
            &&& t[t.len() - k] == 10u8
            &&& mismatch_after(t, m, t.len() - k)
            &&& forall|j: int|
                0 <= j < t.len() - k && t[j] == 10u8 ==> !#[trigger] mismatch_after(t, m, j)
        },
        stochastic_line_end(t, m) is None ==> forall|j: int|
            0 <= j < t.len() && t[j] == 10u8 ==> !#[trigger] mismatch_after(t, m, j),
{
    law_step_list_end(t, m);
    if let Some(k) = stochastic_line_end(t, m) {
        lemma_leaves_iff_mismatch(t, m, t.len() - k);
        assert forall|j: int| 0 <= j < t.len() - k && t[j] == 10u8 implies !#[trigger] mismatch_after(
            t,
            m,
            j,
        ) by {
            lemma_leaves_iff_mismatch(t, m, j);
        }
    } else {
        assert forall|j: int| 0 <= j < t.len() && t[j] == 10u8 implies !#[trigger] mismatch_after(
            t,
            m,
            j,
        ) by {
            lemma_leaves_iff_mismatch(t, m, j);
            assert(!leaves_marker(t, m, j));
        }
    }
}

/// A piece of text that is empty never stops generation, and changes nothing but the count
/// of pieces.
pub proof fn law_empty_piece_never_stops(s: StopConditionView)
    ensures
        next_stop_state(s, Seq::empty()).1 == (false, 0nat),
        next_stop_state(s, Seq::empty()).0 == (StopConditionView {
            num_decoded: s.num_decoded + 1,
            ..s
        }),
{
}

proof fn lemma_first_leaving_exists(t: Seq<u8>, m: Seq<u8>, k: int)
    requires
        exists|i: int| 0 <= i < k && #[trigger] leaves_marker(t, m, i),
    ensures
        exists|i: int| first_leaving(t, m, i),
    decreases k,
{
    if exists|i: int| 0 <= i < k - 1 && #[trigger] leaves_marker(t, m, i) {
        lemma_first_leaving_exists(t, m, k - 1);
    } else {
        assert(first_leaving(t, m, k - 1));
    }
}

proof fn lemma_first_leaving_unique(t: Seq<u8>, m: Seq<u8>, i: int, c: int)
    requires
        first_leaving(t, m, i),
        first_leaving(t, m, c),
    ensures
        i == c,
{
    if c < i {
        assert(!leaves_marker(t, m, c));
    } else if c > i {
        assert(!leaves_marker(t, m, i));
    }
}

/// A step list written in line comments ends at the first newline whose next line leaves
/// the comment (is not empty, does not begin the marker and does not begin with it); the cut
/// covers that newline and everything after it. There is an end exactly when there is such a
/// newline, so a text with no newline never ends the list.
pub proof fn law_step_list_end(t: Seq<u8>, m: Seq<u8>)
    ensures
        stochastic_line_end(t, m) matches Some(k) ==> {
            &&& 1 <= k <= t.len()
            &&& t[t.len() - k] == 10u8
            &&& leaves_marker(t, m, t.len() - k)
            &&& forall|j: int| 0 <= j < t.len() - k ==> !#[trigger] leaves_marker(t, m, j)
        },
        stochastic_line_end(t, m) is Some <==> exists|i: int| #[trigger] leaves_marker(t, m, i),
        (forall|j: int| 0 <= j < t.len() ==> t[j] != 10u8) ==> stochastic_line_end(t, m) is None,
{
    if exists|i: int| #[trigger] leaves_marker(t, m, i) {
        let i = choose|i: int| #[trigger] leaves_marker(t, m, i);
        lemma_first_leaving_exists(t, m, i + 1);
    }
    if exists|i: int| first_leaving(t, m, i) {
        let c = choose|i: int| first_leaving(t, m, i);
        assert(leaves_marker(t, m, c));
    }
}

proof fn lemma_line_end_before(t: Seq<u8>, k: int, p: int)
    requires
        0 <= k <= p < t.len(),
        t[p] == 10u8,
    ensures
        line_end(t, k) <= p,
{
    lemma_line_end(t, k);
}

proof fn lemma_line_kept(t: Seq<u8>, x: Seq<u8>, j: int)
    requires
        0 <= j < t.len(),
        line_end(t, j + 1) < t.len(),
    ensures
        line_after(t + x, j) == line_after(t, j),
{
    let u = t + x;
    let e = line_end(t, j + 1);
    lemma_line_end(t, j + 1);
    assert forall|p: int| j + 1 <= p < e implies u[p] != 10u8 by {
        assert(u[p] == t[p]);
    }
    assert(u[e] == t[e]);
    lemma_line_end_at(u, j + 1, e);
    assert(line_after(u, j) =~= line_after(t, j));
}

/// Once a step list has been left, more generated text keeps it left at the same newline:
/// the cut grows by exactly the text added.
pub proof fn law_step_list_end_is_kept(t: Seq<u8>, x: Seq<u8>, m: Seq<u8>)
    requires
        stochastic_line_end(t, m) is Some,
    ensures
        stochastic_line_end(t + x, m) == Some((stochastic_line_end(t, m)->0 + x.len()) as nat),
{
    let u = t + x;
    let i = choose|i: int| first_leaving(t, m, i);
    let line = line_after(t, i);
    lemma_line_end(t, i + 1);
    assert(u[i] == t[i]);
    if line_end(t, i + 1) < t.len() {
        lemma_line_kept(t, x, i);
    } else {
        let lu = line_after(u, i);
        lemma_line_end(u, i + 1);
        assert forall|p: int| i + 1 <= p < t.len() implies u[p] != 10u8 by {
            assert(u[p] == t[p]);
        }
        assert(line_end(u, i + 1) >= t.len()) by {
            if line_end(u, i + 1) < t.len() {
                assert(u[line_end(u, i + 1)] == t[line_end(u, i + 1)]);
            }
        }
        lemma_neither_prefix(line, m);
        lemma_neither_prefix(lu, m);
        let p = choose|p: int| 0 <= p < line.len() && p < m.len() && #[trigger] line[p] != m[p];
        assert(lu[p] == u[i + 1 + p]);
        assert(line[p] == t[i + 1 + p]);
        assert(lu[p] != m[p]);
    }
    assert(leaves_marker(u, m, i));
    assert forall|j: int| 0 <= j < i implies !#[trigger] leaves_marker(u, m, j) by {
        assert(!leaves_marker(t, m, j));
        if u[j] == 10u8 {
            assert(u[j] == t[j]);
            lemma_line_end_before(t, j + 1, i);
            lemma_line_kept(t, x, j);
        }
    }
    assert(first_leaving(u, m, i));
    let c = choose|c: int| first_leaving(u, m, c);
    lemma_first_leaving_unique(u, m, i, c);
}

/// The `code` style adds nothing to the language's stop words.
pub proof fn law_code_style_adds_nothing(markers: CommentMarkers)
    ensures
        stop_plan("code"@, markers) == StopPlanView::Words(Seq::empty()),
{
    reveal_strlit("code");
    reveal_strlit("stochastic");
    reveal_strlit("hint");
    reveal_strlit("pseudocode");
    assert("code"@.len() == 4);
    assert("stochastic"@.len() == 10);
    assert("pseudocode"@.len() == 10);
    assert("code"@[0] == 'c' && "hint"@[0] == 'h');
}

/// For a language without comments, no style adds anything: every style falls back to
/// plain code.
pub proof fn law_no_comment_adds_nothing(style: Seq<char>)
    ensures
        stop_plan(style, CommentMarkers::Absent) == StopPlanView::Words(Seq::empty()),
{
}

/// A language with both block markers set and non-empty comments in blocks, whatever its
/// line marker.
pub proof fn law_block_preferred_over_line(l: LanguageView)
    requires
        l.block_comment_start matches Some(s) && s.len() > 0,
        l.block_comment_end matches Some(e) && e.len() > 0,
    ensures
        l.comment_markers() == CommentMarkers::Block(l.block_comment_start->0, l.block_comment_end->0),
{
}

proof fn lemma_pushed_nodes(es: Seq<Seq<u8>>, p: Seq<u8>)
    ensures
        pushed_nodes(es).contains(p) <==> (p.len() > 0 && exists|j: int|
            0 <= j < es.len() && is_prefix(p, #[trigger] es[j])),
    decreases es.len(),
{
    if es.len() > 0 {
        let prev = es.drop_last();
        lemma_pushed_nodes(prev, p);
        if pushed_nodes(es).contains(p) {
            if !pushed_nodes(prev).contains(p) {
                assert(is_prefix(p, es[es.len() - 1]));
            } else {
                let j = choose|j: int| 0 <= j < prev.len() && is_prefix(p, #[trigger] prev[j]);
                assert(is_prefix(p, es[j]));
            }
        }
        if p.len() > 0 && exists|j: int| 0 <= j < es.len() && is_prefix(p, #[trigger] es[j]) {
            let j = choose|j: int| 0 <= j < es.len() && is_prefix(p, #[trigger] es[j]);
            if j < es.len() - 1 {
                assert(is_prefix(p, prev[j]));
            } else {
                assert(crate::trie::nonempty_prefixes(es.last()).contains(p));
            }
        }
    }
}

proof fn lemma_pushed_words_grow(es: Seq<Seq<u8>>, k: int)
    requires
        0 <= k <= es.len(),
    ensures
        pushed_words(es.take(k)).subset_of(pushed_words(es)),
    decreases es.len() - k,
{
    if k < es.len() {
        lemma_pushed_words_grow(es, k + 1);
        assert(es.take(k + 1).drop_last() =~= es.take(k));
    } else {
        assert(es.take(k) =~= es);
    }
}

/// A stop word is kept in its trie unless its reversal begins the reversal of a word pushed
/// before it, that is, unless it ends an earlier stop word (a word given twice is kept once).
pub proof fn law_recorded_stop_word(ws: Seq<Seq<char>>, k: int)
    requires
        0 <= k < ws.len(),
        ws[k].len() > 0,
        forall|j: int| 0 <= j < k ==> !is_prefix(reversed_bytes(ws[k]), #[trigger] reversed_bytes(ws[j])),
    ensures
        stop_trie_words(ws).contains(reversed_bytes(ws[k])),
{
    let es = stop_entries(ws);
    let t = es.take(k + 1);
    let w = reversed_bytes(ws[k]);
    lemma_encode_utf8_nonempty(ws[k].reverse());
    assert(t.drop_last() =~= es.take(k));
    lemma_pushed_nodes(es.take(k), w);
    assert(!pushed_nodes(es.take(k)).contains(w)) by {
        if pushed_nodes(es.take(k)).contains(w) {
            let j = choose|j: int| 0 <= j < es.take(k).len() && is_prefix(w, #[trigger] es.take(k)[j]);
            assert(es.take(k)[j] == reversed_bytes(ws[j]));
        }
    }
    assert(t.last() == w);
    assert(pushed_words(t).contains(w));
    lemma_pushed_words_grow(es, k + 1);
}

proof fn lemma_first_named_exists(cfg: Seq<LanguageView>, name: Seq<char>, k: int)
    requires
        0 <= k <= cfg.len(),
        exists|i: int| 0 <= i < k && (#[trigger] cfg[i]).languages.contains(name),
    ensures
        exists|i: int| is_first_named(cfg, name, i),
    decreases k,
{
    if exists|i: int| 0 <= i < k - 1 && (#[trigger] cfg[i]).languages.contains(name) {
        lemma_first_named_exists(cfg, name, k - 1);
    } else {
        assert(is_first_named(cfg, name, k - 1));
    }
}

proof fn lemma_first_with_ext_exists(cfg: Seq<LanguageView>, ext: Seq<char>, k: int)
    requires
        0 <= k <= cfg.len(),
        exists|i: int| 0 <= i < k && (#[trigger] cfg[i]).exts.contains(ext),
    ensures
        exists|i: int| is_first_with_ext(cfg, ext, i),
    decreases k,
{
    if exists|i: int| 0 <= i < k - 1 && (#[trigger] cfg[i]).exts.contains(ext) {
        lemma_first_with_ext_exists(cfg, ext, k - 1);
    } else {
        assert(is_first_with_ext(cfg, ext, k - 1));
    }
}

/// A lookup by name never fails: it answers a language with that name when one has it, and
/// the unknown language otherwise.
pub proof fn law_lookup_by_name(cfg: Seq<LanguageView>, name: Seq<char>)
    ensures
        has_name(cfg, name) ==> resolve_language(cfg, name).languages.contains(name),
        !has_name(cfg, name) ==> resolve_language(cfg, name) == unknown_language_view(),
{
    if has_name(cfg, name) {
        lemma_first_named_exists(cfg, name, cfg.len() as int);
    }
}

proof fn lemma_first_repeat_none_distinct(s: Seq<Seq<char>>)
    requires
        first_repeat(s) is None,
    ensures
        forall|a: int, b: int| 0 <= a < b < s.len() ==> s[a] != s[b],
    decreases s.len(),
{
    if s.len() > 0 {
        let d = s.drop_last();
        lemma_first_repeat_none_distinct(d);
        assert forall|a: int, b: int| 0 <= a < b < s.len() implies s[a] != s[b] by {
            if b == s.len() - 1 {
                assert(d[a] == s[a]);
                assert(!d.contains(s.last()));
            } else {
                assert(d[a] == s[a] && d[b] == s[b]);
            }
        }
    }
}

proof fn lemma_all_names_step(cfg: Seq<LanguageView>, k: int)
    requires
        0 <= k < cfg.len(),
    ensures
        all_names(cfg.take(k + 1)) == all_names(cfg.take(k)) + cfg[k].languages,
{
    assert(cfg.take(k + 1).drop_last() =~= cfg.take(k));
}

proof fn lemma_all_names_prefix(cfg: Seq<LanguageView>, k: int)
    requires
        0 <= k <= cfg.len(),
    ensures
        all_names(cfg.take(k)).len() <= all_names(cfg).len(),
        forall|p: int|
            0 <= p < all_names(cfg.take(k)).len() ==> all_names(cfg.take(k))[p] == all_names(cfg)[p],
    decreases cfg.len() - k,
{
    if k < cfg.len() {
        lemma_all_names_prefix(cfg, k + 1);
        lemma_all_names_step(cfg, k);
    } else {
        assert(cfg.take(k) =~= cfg);
    }
}

/// With no name given twice, the language a lookup by name finds is the only one with that
/// name.
pub proof fn law_unique_name_lookup(cfg: Seq<LanguageView>, name: Seq<char>, i: int)
    requires
        first_repeat(all_names(cfg)) is None,
        0 <= i < cfg.len(),
        cfg[i].languages.contains(name),
    ensures
        resolve_language(cfg, name) == cfg[i],
{
    lemma_first_named_exists(cfg, name, cfg.len() as int);
    let f = choose|f: int| is_first_named(cfg, name, f);
    if f != i {
        assert(f < i);
        let all = all_names(cfg);
        lemma_first_repeat_none_distinct(all);
        let x = choose|x: int| 0 <= x < cfg[f].languages.len() && cfg[f].languages[x] == name;
        let y = choose|y: int| 0 <= y < cfg[i].languages.len() && cfg[i].languages[y] == name;
        lemma_all_names_step(cfg, f);
        lemma_all_names_step(cfg, i);
        lemma_all_names_prefix(cfg, f + 1);
        lemma_all_names_prefix(cfg, i + 1);
        lemma_all_names_prefix(cfg.take(i), f + 1);
        assert(cfg.take(i).take(f + 1) =~= cfg.take(f + 1));
        let p1 = all_names(cfg.take(f)).len() + x;
        let p2 = all_names(cfg.take(i)).len() + y;
        assert(all_names(cfg.take(f + 1))[p1] == name);
        assert(all_names(cfg.take(i))[p1] == name);
        assert(all[p1] == name);
        assert(all_names(cfg.take(i + 1))[p2] == name);
        assert(all[p2] == name);
    }
}

/// With no name given twice, and a name for every language with a file extension, the
/// language a lookup by extension finds has that extension; and one is found exactly when
/// some language has the extension.
pub proof fn law_lookup_by_ext(cfg: Seq<LanguageView>, ext: Seq<char>)
    requires
        first_repeat(all_names(cfg)) is None,
        named_when_extended(cfg),
    ensures
        resolve_extension(cfg, ext) is Some <==> has_ext(cfg, ext),
        resolve_extension(cfg, ext) matches Some(l) ==> l.exts.contains(ext),
{
    if has_ext(cfg, ext) {
        lemma_first_with_ext_exists(cfg, ext, cfg.len() as int);
        let i = choose|i: int| is_first_with_ext(cfg, ext, i);
        assert(cfg[i].languages.len() > 0);
        assert(cfg[i].languages.contains(cfg[i].languages[0]));
        law_unique_name_lookup(cfg, cfg[i].languages[0], i);
    }
}

/// What a style adds for a language is at most one word, and never an empty one.
pub proof fn law_style_adds_one_word(style: Seq<char>, l: LanguageView)
    ensures
        stop_plan(style, l.comment_markers()) matches StopPlanView::Words(ws) ==> ws.len() <= 1
            && forall|i: int| 0 <= i < ws.len() ==> (#[trigger] ws[i]).len() > 0,
{
    reveal_strlit(" END");
}

/// The word a style adds for a language (its closing block marker, a newline for a hint in
/// line comments, or the `END` line of pseudocode in line comments) stops generation as soon
/// as the text so far ends with it, in a stop condition made for that style.
pub proof fn law_style_word_stops(
    s: StopConditionView,
    style: Seq<char>,
    l: LanguageView,
    new_text: Seq<char>,
    before: Seq<char>,
)
    requires
        stop_plan(style, l.comment_markers()) matches StopPlanView::Words(ws) && ws.len() > 0
            && s.extra_stop_words == Some(stop_trie_words(ws)) && s.reversed_text.reverse()
            + new_text == before + ws[0],
        new_text.len() > 0,
    ensures
        next_stop_state(s, new_text).1.0,
{
    law_style_adds_one_word(style, l);
    let ws = stop_plan(style, l.comment_markers())->Words_0;
    law_recorded_stop_word(ws, 0);
    law_stop_word_stops_generation(s, new_text, before, ws[0]);
}

} // verus!
