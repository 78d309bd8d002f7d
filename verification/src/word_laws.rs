use vstd::prelude::*;
use crate::text::{
    all_chars, ascii_lower_char, ascii_lower_text, ascii_upper_char, ascii_upper_text, is_ascii_char,
    is_ascii_letter, is_ascii_text, letter, lemma_trim_all_chars, trim_range, lemma_trim_ends, lemma_trim_fixed, lemma_trim_map,
    lemma_words_of_concat, lemma_words_of_elements, lemma_words_of_map, lemma_words_of_single,
    lowercased, normalized, trim, trimmed_away, white_space, words_of,
};
use crate::word_sorter::{
    cleaned, is_sorted_word_list, is_word_of, joined, lemma_sorted_lists_with_same_elements_agree,
};

verus! {

proof fn lemma_ascii_all_chars(s: Seq<char>)
    ensures
        all_chars(s, |c: char| is_ascii_char(c)) <==> is_ascii_text(s),
{
    let p = |c: char| is_ascii_char(c);
    if is_ascii_text(s) {
        assert forall|i: int| 0 <= i < s.len() implies #[trigger] p(s[i]) by {
            assert(is_ascii_char(s[i]));
        }
    }
    if all_chars(s, p) {
        assert forall|i: int| 0 <= i < s.len() implies is_ascii_char(#[trigger] s[i]) by {
            assert(p(s[i]));
        }
    }
}

/// The cleaned form of an ASCII piece without white space is ASCII, has no
/// white space, and is its own cleaned form.
proof fn lemma_cleaned_ascii(p: Seq<char>)
    requires
        is_ascii_text(p),
        forall|i: int| 0 <= i < p.len() ==> !white_space(#[trigger] p[i]),
    ensures
        is_ascii_text(cleaned(p)),
        forall|i: int| 0 <= i < cleaned(p).len() ==> !white_space(#[trigger] cleaned(p)[i]),
        cleaned(cleaned(p)) == cleaned(p),
{
    let asc = |c: char| is_ascii_char(c);
    let nws = |c: char| !white_space(c);
    lemma_ascii_all_chars(p);
    assert forall|i: int| 0 <= i < p.len() implies #[trigger] nws(p[i]) by {
        assert(!white_space(p[i]));
    }
    let q = trim(p, false);
    lemma_trim_all_chars(p, false, asc);
    lemma_trim_all_chars(p, false, nws);
    lemma_ascii_all_chars(q);
    let l = ascii_lower_text(q);
    assert(cleaned(p) == l);
    assert forall|i: int| 0 <= i < l.len() implies is_ascii_char(#[trigger] l[i]) && !white_space(l[i]) by {
        assert(l[i] == ascii_lower_char(q[i]));
        assert(is_ascii_char(q[i]));
        assert(nws(q[i]));
    }
    lemma_trim_ends(p, false);
    if l.len() > 0 {
        assert(letter(q[0]) && letter(q.last()));
        assert(l[0] == ascii_lower_char(q[0]));
        assert(l.last() == ascii_lower_char(q.last()));
        assert(is_ascii_char(q[0]) && is_ascii_char(q.last()));
        assert(is_ascii_letter(q[0]) && is_ascii_letter(q.last()));
        assert(is_ascii_char(l[0]) && is_ascii_char(l.last()));
        assert(letter(l[0]) && letter(l.last()));
    }
    lemma_trim_fixed(l, false);
    assert(lowercased(l) == ascii_lower_text(l));
    assert(ascii_lower_text(l) =~= l);
}

/// The words of a list joined by one white-space character are the list,
/// when every element is a non-empty text without white space.
pub proof fn lemma_words_of_joined(w: Seq<Seq<char>>, sep: char)
    requires
        white_space(sep),
        forall|i: int| 0 <= i < w.len() ==> (#[trigger] w[i]).len() > 0,
        forall|i: int, j: int| 0 <= i < w.len() && 0 <= j < w[i].len() ==> !white_space(#[trigger] w[i][j]),
    ensures
        words_of(joined(w, seq![sep])) == w,
    decreases w.len(),
{
    if w.len() == 0 {
        assert(w =~= Seq::<Seq<char>>::empty());
    } else if w.len() == 1 {
        assert forall|j: int| 0 <= j < w[0].len() implies !white_space(#[trigger] w[0][j]) by {
            assert(!white_space(w[0][j]));
        }
        lemma_words_of_single(w[0]);
        assert(w =~= seq![w[0]]);
    } else {
        let w1 = w.drop_last();
        let last = w.last();
        assert forall|i: int, j: int| 0 <= i < w1.len() && 0 <= j < w1[i].len() implies !white_space(
            #[trigger] w1[i][j],
        ) by {
            assert(w1[i] == w[i]);
        }
        assert forall|i: int| 0 <= i < w1.len() implies (#[trigger] w1[i]).len() > 0 by {
            assert(w1[i] == w[i]);
        }
        lemma_words_of_joined(w1, sep);
        let x = joined(w1, seq![sep]) + seq![sep];
        assert(x.drop_last() =~= joined(w1, seq![sep]));
        assert(x.last() == sep);
        assert(words_of(x) == words_of(x.drop_last()));
        assert forall|j: int| 0 <= j < last.len() implies !white_space(#[trigger] last[j]) by {
            assert(!white_space(w[w.len() - 1][j]));
        }
        lemma_words_of_single(last);
        lemma_words_of_concat(x, last);
        assert(joined(w, seq![sep]) == x + last);
        assert(w1 + seq![last] =~= w);
    }
}

/// Idempotence: for an ASCII text, the words of its sorted word list joined
/// by one white-space character (a newline or a space, say) are that list
/// again.
pub proof fn law_word_list_is_a_fixed_point(
    text: Seq<char>,
    words: Seq<Seq<char>>,
    sep: char,
    again: Seq<Seq<char>>,
)
    requires
        is_ascii_text(text),
        white_space(sep),
        is_sorted_word_list(text, words),
        is_sorted_word_list(joined(words, seq![sep]), again),
    ensures
        again == words,
{
    let pieces = words_of(text);
    let asc = |c: char| is_ascii_char(c);
    lemma_ascii_all_chars(text);
    lemma_words_of_elements(text, asc);
    assert forall|i: int| 0 <= i < words.len() implies {
        &&& (#[trigger] words[i]).len() > 0
        &&& forall|j: int| 0 <= j < words[i].len() ==> !white_space(#[trigger] words[i][j])
        &&& cleaned(words[i]) == words[i]
    } by {
        assert(words.contains(words[i]));
        assert(is_word_of(text, words[i]));
        let k = choose|k: int| 0 <= k < pieces.len() && cleaned(#[trigger] pieces[k]) == words[i];
        assert(all_chars(pieces[k], asc));
        lemma_ascii_all_chars(pieces[k]);
        assert forall|j: int| 0 <= j < pieces[k].len() implies !white_space(#[trigger] pieces[k][j]) by {
            assert(!white_space(pieces[k][j]));
        }
        lemma_cleaned_ascii(pieces[k]);
    }
    lemma_words_of_joined(words, sep);
    let u = joined(words, seq![sep]);
    assert forall|x: Seq<char>| again.contains(x) <==> words.contains(x) by {
        if is_word_of(u, x) {
            let k = choose|k: int| 0 <= k < words_of(u).len() && cleaned(#[trigger] words_of(u)[k]) == x;
            assert(cleaned(words[k]) == words[k]);
            assert(words[k] == x);
        }
        if words.contains(x) {
            let k = choose|k: int| 0 <= k < words.len() && words[k] == x;
            assert(cleaned(words[k]) == words[k]);
            assert(cleaned(words_of(u)[k]) == x);
        }
    }
    lemma_sorted_lists_with_same_elements_agree(again, words);
}

/// A character map that changes only the case of ASCII letters leaves the
/// cleaned form of an ASCII piece as it was.
proof fn lemma_case_map_cleaned(p: Seq<char>, f: spec_fn(char) -> char)
    requires
        is_ascii_text(p),
        forall|c: char| is_ascii_char(c) ==> is_ascii_char(#[trigger] f(c)),
        forall|c: char| letter(#[trigger] f(c)) == letter(c),
        forall|c: char| ascii_lower_char(#[trigger] f(c)) == ascii_lower_char(c),
    ensures
        cleaned(p.map_values(f)) == cleaned(p),
{
    let asc = |c: char| is_ascii_char(c);
    assert forall|c: char| trimmed_away(#[trigger] f(c), false) == trimmed_away(c, false) by {
        assert(letter(f(c)) == letter(c));
    }
    lemma_trim_map(p, false, f);
    let q = trim(p, false);
    lemma_ascii_all_chars(p);
    lemma_trim_all_chars(p, false, asc);
    lemma_ascii_all_chars(q);
    let qf = q.map_values(f);
    assert(is_ascii_text(qf)) by {
        assert forall|i: int| 0 <= i < qf.len() implies is_ascii_char(#[trigger] qf[i]) by {
            assert(qf[i] == f(q[i]));
            assert(is_ascii_char(q[i]));
        }
    }
    assert(lowercased(qf) == ascii_lower_text(qf));
    assert(lowercased(q) == ascii_lower_text(q));
    assert forall|i: int| 0 <= i < q.len() implies #[trigger] ascii_lower_text(qf)[i] == ascii_lower_text(q)[i] by {
        assert(qf[i] == f(q[i]));
        assert(ascii_lower_char(f(q[i])) == ascii_lower_char(q[i]));
    }
    assert(ascii_lower_text(qf) =~= ascii_lower_text(q));
}

/// A character map that changes only the case of ASCII letters does not
/// change which words an ASCII text has.
proof fn lemma_case_map_words(text: Seq<char>, f: spec_fn(char) -> char)
    requires
        is_ascii_text(text),
        forall|c: char| is_ascii_char(c) ==> is_ascii_char(#[trigger] f(c)),
        forall|c: char| white_space(#[trigger] f(c)) == white_space(c),
        forall|c: char| letter(#[trigger] f(c)) == letter(c),
        forall|c: char| ascii_lower_char(#[trigger] f(c)) == ascii_lower_char(c),
    ensures
        forall|x: Seq<char>| is_word_of(text.map_values(f), x) <==> is_word_of(text, x),
{
    let asc = |c: char| is_ascii_char(c);
    lemma_words_of_map(text, f);
    lemma_ascii_all_chars(text);
    lemma_words_of_elements(text, asc);
    let pieces = words_of(text);
    let mapped = words_of(text.map_values(f));
    assert forall|k: int| 0 <= k < pieces.len() implies cleaned(#[trigger] mapped[k]) == cleaned(pieces[k]) by {
        assert(mapped[k] == pieces[k].map_values(f));
        assert(all_chars(pieces[k], asc));
        lemma_ascii_all_chars(pieces[k]);
        lemma_case_map_cleaned(pieces[k], f);
    }
    assert forall|x: Seq<char>| is_word_of(text.map_values(f), x) <==> is_word_of(text, x) by {
        if is_word_of(text.map_values(f), x) {
            let k = choose|k: int| 0 <= k < mapped.len() && cleaned(#[trigger] mapped[k]) == x;
            assert(cleaned(pieces[k]) == x);
        }
        if is_word_of(text, x) {
            let k = choose|k: int| 0 <= k < pieces.len() && cleaned(#[trigger] pieces[k]) == x;
            assert(cleaned(mapped[k]) == x);
        }
    }
}

/// The word list of an ASCII text does not depend on the case of its
/// letters: upper-casing or lower-casing the text (as
/// `to_ascii_uppercase`, `to_ascii_lowercase` do) gives the same list.
pub proof fn law_word_list_ignores_ascii_case(
    text: Seq<char>,
    words: Seq<Seq<char>>,
    upper_words: Seq<Seq<char>>,
    lower_words: Seq<Seq<char>>,
)
    requires
        is_ascii_text(text),
        is_sorted_word_list(text, words),
        is_sorted_word_list(ascii_upper_text(text), upper_words),
        is_sorted_word_list(ascii_lower_text(text), lower_words),
    ensures
        upper_words == words,
        lower_words == words,
{
    let up = |c: char| ascii_upper_char(c);
    let lo = |c: char| ascii_lower_char(c);
    assert forall|c: char| letter(#[trigger] up(c)) == letter(c) by {
        if 'a' <= c && c <= 'z' {
            assert(is_ascii_char(c) && is_ascii_char(up(c)));
            assert(is_ascii_letter(c) && is_ascii_letter(up(c)));
        }
    }
    assert forall|c: char| letter(#[trigger] lo(c)) == letter(c) by {
        if 'A' <= c && c <= 'Z' {
            assert(is_ascii_char(c) && is_ascii_char(lo(c)));
            assert(is_ascii_letter(c) && is_ascii_letter(lo(c)));
        }
    }
    lemma_case_map_words(text, up);
    lemma_case_map_words(text, lo);
    assert forall|x: Seq<char>| upper_words.contains(x) <==> words.contains(x) by {
        assert(is_word_of(ascii_upper_text(text), x) <==> is_word_of(text, x));
    }
    assert forall|x: Seq<char>| lower_words.contains(x) <==> words.contains(x) by {
        assert(is_word_of(ascii_lower_text(text), x) <==> is_word_of(text, x));
    }
    lemma_sorted_lists_with_same_elements_agree(upper_words, words);
    lemma_sorted_lists_with_same_elements_agree(lower_words, words);
}

/// The words of two texts joined by a space are the words of either: the
/// word list of `a + " " + b` holds exactly the words of `a` and of `b`.
pub proof fn law_word_lists_of_joined_texts(
    a: Seq<char>,
    b: Seq<char>,
    words_a: Seq<Seq<char>>,
    words_b: Seq<Seq<char>>,
    words_ab: Seq<Seq<char>>,
)
    requires
        is_sorted_word_list(a, words_a),
        is_sorted_word_list(b, words_b),
        is_sorted_word_list(a + seq![' '] + b, words_ab),
    ensures
        forall|x: Seq<char>| words_ab.contains(x) <==> (words_a.contains(x) || words_b.contains(x)),
{
    let x0 = a.push(' ');
    assert(a + seq![' '] + b =~= x0 + b);
    assert(x0.drop_last() =~= a);
    assert(white_space(x0.last()));
    assert(words_of(x0) == words_of(a));
    lemma_words_of_concat(x0, b);
    let wa = words_of(a);
    let wb = words_of(b);
    let wab = words_of(x0 + b);
    assert(wab == wa + wb);
    assert forall|x: Seq<char>| is_word_of(a + seq![' '] + b, x) <==> (is_word_of(a, x) || is_word_of(b, x)) by {
        if is_word_of(x0 + b, x) {
            let k = choose|k: int| 0 <= k < wab.len() && cleaned(#[trigger] wab[k]) == x;
            if k < wa.len() {
                assert(wab[k] == wa[k]);
            } else {
                assert(wab[k] == wb[k - wa.len()]);
            }
        }
        if is_word_of(a, x) {
            let k = choose|k: int| 0 <= k < wa.len() && cleaned(#[trigger] wa[k]) == x;
            assert(wab[k] == wa[k]);
        }
        if is_word_of(b, x) {
            let k = choose|k: int| 0 <= k < wb.len() && cleaned(#[trigger] wb[k]) == x;
            assert(wab[k + wa.len()] == wb[k]);
        }
    }
}

/// Each word of the list is a white-space separated piece of the text cut
/// to its letters and lowercased: it is `lowercased(p[a..b])` for a piece
/// `p`, where no character of `p` before `a` or from `b` on is a letter and
/// `p[a]`, `p[b - 1]` are letters. The words of an ASCII text start and end
/// with a lowercase ASCII letter.
pub proof fn law_words_are_pieces_cut_to_their_letters(text: Seq<char>, words: Seq<Seq<char>>, w: Seq<char>)
    requires
        is_sorted_word_list(text, words),
        words.contains(w),
    ensures
        exists|k: int, a: int, b: int|
            #![trigger words_of(text)[k].subrange(a, b)]
            {
                &&& 0 <= k < words_of(text).len()
                &&& 0 <= a < b <= words_of(text)[k].len()
                &&& forall|j: int| 0 <= j < a ==> !letter(#[trigger] words_of(text)[k][j])
                &&& forall|j: int| b <= j < words_of(text)[k].len() ==> !letter(#[trigger] words_of(text)[k][j])
                &&& letter(words_of(text)[k][a])
                &&& letter(words_of(text)[k][b - 1])
                &&& w == lowercased(words_of(text)[k].subrange(a, b))
            },
        is_ascii_text(text) ==> 'a' <= w[0] && w[0] <= 'z' && 'a' <= w.last() && w.last() <= 'z',
{
    let pieces = words_of(text);
    assert(is_word_of(text, w));
    let k = choose|k: int| 0 <= k < pieces.len() && cleaned(#[trigger] pieces[k]) == w;
    let p = pieces[k];
    let (a, b) = trim_range(p, false);
    assert(trim(p, false) == p.subrange(a, b));
    if a == b {
        assert(p.subrange(a, b) =~= Seq::<char>::empty());
        assert(is_ascii_text(p.subrange(a, b)));
        assert(ascii_lower_text(p.subrange(a, b)) =~= Seq::<char>::empty());
        assert(false);
    }
    assert forall|j: int| 0 <= j < a implies !letter(#[trigger] pieces[k][j]) by {
        assert(trimmed_away(p[j], false));
    }
    assert forall|j: int| b <= j < pieces[k].len() implies !letter(#[trigger] pieces[k][j]) by {
        assert(trimmed_away(p[j], false));
    }
    assert(w == lowercased(pieces[k].subrange(a, b)));
    if is_ascii_text(text) {
        let asc = |c: char| is_ascii_char(c);
        lemma_ascii_all_chars(text);
        lemma_words_of_elements(text, asc);
        assert(all_chars(p, asc));
        lemma_ascii_all_chars(p);
        let q = p.subrange(a, b);
        assert(is_ascii_text(q)) by {
            assert forall|i: int| 0 <= i < q.len() implies is_ascii_char(#[trigger] q[i]) by {
                assert(q[i] == p[a + i]);
            }
        }
        assert(w == ascii_lower_text(q));
        assert(q[0] == p[a]);
        assert(q.last() == p[b - 1]);
        assert(is_ascii_char(p[a]) && is_ascii_char(p[b - 1]));
        assert(w[0] == ascii_lower_char(q[0]));
        assert(w.last() == ascii_lower_char(q.last()));
    }
}

/// The stretch of a text cut to its kept characters is unique: bounds
/// `(a, b)` that leave only trimmed-away characters outside and start and
/// end with kept ones are the bounds of `trim`.
proof fn lemma_cut_is_trim(p: Seq<char>, white: bool, a: int, b: int)
    requires
        0 <= a < b <= p.len(),
        forall|j: int| 0 <= j < a ==> trimmed_away(#[trigger] p[j], white),
        forall|j: int| b <= j < p.len() ==> trimmed_away(#[trigger] p[j], white),
        !trimmed_away(p[a], white),
        !trimmed_away(p[b - 1], white),
    ensures
        trim(p, white) == p.subrange(a, b),
{
    let (a1, b1) = trim_range(p, white);
    if a1 < a {
        if a1 < b1 {
            assert(trimmed_away(p[a1], white));
        } else {
            assert(trimmed_away(p[a], white));
        }
    }
    if a < a1 {
        assert(trimmed_away(p[a], white));
    }
    if b1 < b {
        assert(trimmed_away(p[b - 1], white));
    }
    if b < b1 {
        assert(trimmed_away(p[b1 - 1], white));
    }
}

/// Conversely, every piece of the text that holds a letter gives a word:
/// cut to its letters and lowercased, it is in the list.
pub proof fn law_pieces_with_letters_give_words(text: Seq<char>, words: Seq<Seq<char>>, k: int, a: int, b: int)
    requires
        is_sorted_word_list(text, words),
        0 <= k < words_of(text).len(),
        0 <= a < b <= words_of(text)[k].len(),
        forall|j: int| 0 <= j < a ==> !letter(#[trigger] words_of(text)[k][j]),
        forall|j: int| b <= j < words_of(text)[k].len() ==> !letter(#[trigger] words_of(text)[k][j]),
        letter(words_of(text)[k][a]),
        letter(words_of(text)[k][b - 1]),
    ensures
        words.contains(lowercased(words_of(text)[k].subrange(a, b))) || lowercased(
            words_of(text)[k].subrange(a, b),
        ).len() == 0,
{
    let p = words_of(text)[k];
    assert forall|j: int| 0 <= j < a implies trimmed_away(#[trigger] p[j], false) by {
        assert(!letter(words_of(text)[k][j]));
    }
    assert forall|j: int| b <= j < p.len() implies trimmed_away(#[trigger] p[j], false) by {
        assert(!letter(words_of(text)[k][j]));
    }
    lemma_cut_is_trim(p, false, a, b);
    let w = lowercased(p.subrange(a, b));
    assert(cleaned(words_of(text)[k]) == w);
    if w.len() > 0 {
        assert(is_word_of(text, w));
    }
}

/// Normalizing an answer only cuts white space off its two ends and
/// lowercases the rest: white space inside the answer stays, and an
/// answer with no white space at its ends keeps every character.
pub proof fn law_normalizing_cuts_only_the_ends(raw: Seq<char>)
    ensures
        exists|a: int, b: int|
            #![trigger raw.subrange(a, b)]
            {
                &&& 0 <= a <= b <= raw.len()
                &&& forall|j: int| 0 <= j < a ==> white_space(#[trigger] raw[j])
                &&& forall|j: int| b <= j < raw.len() ==> white_space(#[trigger] raw[j])
                &&& a < b ==> !white_space(raw[a]) && !white_space(raw[b - 1])
                &&& normalized(raw) == lowercased(raw.subrange(a, b))
            },
        raw.len() > 0 && !white_space(raw[0]) && !white_space(raw.last()) ==> normalized(raw) == lowercased(raw),
{
    let (a, b) = trim_range(raw, true);
    assert(normalized(raw) == lowercased(raw.subrange(a, b)));
    if raw.len() > 0 && !white_space(raw[0]) && !white_space(raw.last()) {
        lemma_cut_is_trim(raw, true, 0, raw.len() as int);
        assert(raw.subrange(0, raw.len() as int) =~= raw);
    }
}

} // verus!
