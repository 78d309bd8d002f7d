use vstd::prelude::*;
use crate::text::{
    chars_equal, chars_less, chars_of, char_views, lemma_seq_less_irreflexive, lemma_seq_less_total, lemma_seq_less_transitive,
    lowercased, seq_less, split_whitespace, to_lower, string_from_chars, trim, trim_bounds,
    words_of,
};

verus! {

/// A piece of text cleaned for the word list: its non-alphabetic ends cut
/// off, then lowercased.
pub open spec fn cleaned(piece: Seq<char>) -> Seq<char> {
    lowercased(trim(piece, false))
}

/// Every element comes strictly before every later one.
pub open spec fn strictly_sorted(s: Seq<Seq<char>>) -> bool {
    forall|i: int, j: int| 0 <= i < j < s.len() ==> seq_less(#[trigger] s[i], #[trigger] s[j])
}

/// The character views of a vector of strings.
pub open spec fn string_views(v: Seq<String>) -> Seq<Seq<char>> {
    v.map_values(|s: String| s@)
}

/// Whether `w` is the non-empty cleaned form of one of the white-space
/// separated pieces of `text`.
pub open spec fn is_word_of(text: Seq<char>, w: Seq<char>) -> bool {
    w.len() > 0 && exists|i: int| 0 <= i < words_of(text).len() && cleaned(#[trigger] words_of(text)[i]) == w
}

/// `words` is the sorted list of the distinct words of `text`.
pub open spec fn is_sorted_word_list(text: Seq<char>, words: Seq<Seq<char>>) -> bool {
    &&& strictly_sorted(words)
    &&& forall|w: Seq<char>| words.contains(w) <==> is_word_of(text, w)
}

/// Two strictly sorted lists with the same elements are the same list.
pub proof fn lemma_sorted_lists_with_same_elements_agree(a: Seq<Seq<char>>, b: Seq<Seq<char>>)
    requires
        strictly_sorted(a),
        strictly_sorted(b),
        forall|x: Seq<char>| a.contains(x) <==> b.contains(x),
    ensures
        a == b,
    decreases a.len(),
{
    if a.len() == 0 {
        if b.len() > 0 {
            assert(b.contains(b[0]));
        }
        assert(a =~= b);
    } else {
        assert(a.contains(a[0]));
        assert(b.len() > 0);
        assert(b.contains(b[0]));
        let j = choose|j: int| 0 <= j < b.len() && b[j] == a[0];
        let i = choose|i: int| 0 <= i < a.len() && a[i] == b[0];
        if j > 0 {
            assert(seq_less(b[0], b[j]));
            if i > 0 {
                assert(seq_less(a[0], a[i]));
                lemma_seq_less_total(a[0], a[i]);
            } else {
                lemma_seq_less_irreflexive(b[0]);
            }
        }
        let a1 = a.drop_first();
        let b1 = b.drop_first();
        assert forall|x: Seq<char>| a1.contains(x) <==> b1.contains(x) by {
            if a1.contains(x) {
                let k = choose|k: int| 0 <= k < a1.len() && a1[k] == x;
                assert(a[k + 1] == x);
                assert(seq_less(a[0], a[k + 1]));
                assert(b.contains(x));
                let m = choose|m: int| 0 <= m < b.len() && b[m] == x;
                if m == 0 {
                    lemma_seq_less_irreflexive(x);
                }
                assert(b1[m - 1] == x);
            }
            if b1.contains(x) {
                let k = choose|k: int| 0 <= k < b1.len() && b1[k] == x;
                assert(b[k + 1] == x);
                assert(seq_less(b[0], b[k + 1]));
                assert(a.contains(x));
                let m = choose|m: int| 0 <= m < a.len() && a[m] == x;
                if m == 0 {
                    lemma_seq_less_irreflexive(x);
                }
                assert(a1[m - 1] == x);
            }
        }
        assert(strictly_sorted(a1)) by {
            assert forall|p: int, q: int| 0 <= p < q < a1.len() implies seq_less(#[trigger] a1[p], #[trigger] a1[q]) by {
                assert(a1[p] == a[p + 1] && a1[q] == a[q + 1]);
            }
        }
        assert(strictly_sorted(b1)) by {
            assert forall|p: int, q: int| 0 <= p < q < b1.len() implies seq_less(#[trigger] b1[p], #[trigger] b1[q]) by {
                assert(b1[p] == b[p + 1] && b1[q] == b[q + 1]);
            }
        }
        lemma_sorted_lists_with_same_elements_agree(a1, b1);
        assert(a =~= seq![a[0]] + a1);
        assert(b =~= seq![b[0]] + b1);
    }
}

/// A text has one sorted word list: the answer of `extract_words` is
/// determined by the text alone.
pub proof fn law_word_list_is_unique(text: Seq<char>, a: Seq<Seq<char>>, b: Seq<Seq<char>>)
    requires
        is_sorted_word_list(text, a),
        is_sorted_word_list(text, b),
    ensures
        a == b,
{
    lemma_sorted_lists_with_same_elements_agree(a, b);
}

/// Adds `w` to a strictly sorted list unless it is already there.
pub fn insert_sorted(v: &mut Vec<Vec<char>>, w: Vec<char>)
    requires
        strictly_sorted(char_views(old(v)@)),
    ensures
        strictly_sorted(char_views(final(v)@)),
        forall|x: Seq<char>| char_views(final(v)@).contains(x) <==> (char_views(old(v)@).contains(x) || x == w@),
{
    let ghost old_views = char_views(v@);
    let mut j: usize = 0;
    while j < v.len() && chars_less(&v[j], &w)
        invariant
            j <= v.len(),
            char_views(v@) == old_views,
            strictly_sorted(old_views),
            forall|i: int| 0 <= i < j ==> seq_less(#[trigger] old_views[i], w@),
        decreases v.len() - j,
    {
        j = j + 1;
    }
    if j < v.len() && chars_equal(&v[j], &w) {
        assert(old_views[j as int] == w@);
        assert(forall|x: Seq<char>| old_views.contains(x) || x == w@ ==> old_views.contains(x));
        return;
    }
    let ghost wv = w@;
    proof {
        if j < old_views.len() {
            lemma_seq_less_total(old_views[j as int], wv);
            assert forall|k: int| j <= k < old_views.len() implies seq_less(wv, #[trigger] old_views[k]) by {
                if k > j {
                    lemma_seq_less_transitive(wv, old_views[j as int], old_views[k]);
                }
            }
        }
    }
    v.insert(j, w);
    let ghost nv = char_views(v@);
    assert(nv =~= old_views.insert(j as int, wv));
    assert forall|p: int, q: int| 0 <= p < q < nv.len() implies seq_less(#[trigger] nv[p], #[trigger] nv[q]) by {
        if q < j {
        } else if q == j {
            assert(nv[p] == old_views[p]);
        } else if p < j {
            assert(nv[q] == old_views[q - 1]);
        } else if p == j {
            assert(nv[q] == old_views[q - 1]);
        } else {
            assert(nv[p] == old_views[p - 1]);
            assert(nv[q] == old_views[q - 1]);
        }
    }
    assert forall|x: Seq<char>| nv.contains(x) <==> (old_views.contains(x) || x == wv) by {
        if nv.contains(x) {
            let k = choose|k: int| 0 <= k < nv.len() && nv[k] == x;
            if k < j {
                assert(old_views[k] == x);
            } else if k > j {
                assert(old_views[k - 1] == x);
            }
        }
        if old_views.contains(x) {
            let k = choose|k: int| 0 <= k < old_views.len() && old_views[k] == x;
            if k < j {
                assert(nv[k] == x);
            } else {
                assert(nv[k + 1] == x);
            }
        }
        if x == wv {
            assert(nv[j as int] == x);
        }
    }
}

/// The distinct elements of `words`, sorted: what collecting them into a
/// set and sorting the result gives.
pub fn sort_unique_words(words: &Vec<String>) -> (r: Vec<String>)
    ensures
        strictly_sorted(string_views(r@)),
        forall|w: Seq<char>| string_views(r@).contains(w) <==> string_views(words@).contains(w),
{
    let mut sorted: Vec<Vec<char>> = Vec::new();
    let mut k: usize = 0;
    while k < words.len()
        invariant
            k <= words.len(),
            strictly_sorted(char_views(sorted@)),
            forall|w: Seq<char>| char_views(sorted@).contains(w) <==> string_views(words@).take(k as int).contains(w),
        decreases words.len() - k,
    {
        let lc = chars_of(words[k].as_str());
        let ghost before = char_views(sorted@);
        insert_sorted(&mut sorted, lc);
        let ghost taken = string_views(words@).take(k + 1);
        assert(taken =~= string_views(words@).take(k as int).push(words@[k as int]@));
        assert forall|w: Seq<char>| char_views(sorted@).contains(w) <==> taken.contains(w) by {
            if taken.contains(w) {
                let i = choose|i: int| 0 <= i < taken.len() && taken[i] == w;
                if i < k {
                    assert(string_views(words@).take(k as int)[i] == w);
                }
            }
            if string_views(words@).take(k as int).contains(w) {
                let i = choose|i: int| 0 <= i < k && string_views(words@).take(k as int)[i] == w;
                assert(taken[i] == w);
            }
            if w == words@[k as int]@ {
                assert(taken[k as int] == w);
            }
        }
        k = k + 1;
    }
    assert(string_views(words@).take(words.len() as int) =~= string_views(words@));
    let mut r: Vec<String> = Vec::new();
    let mut m: usize = 0;
    while m < sorted.len()
        invariant
            m <= sorted.len(),
            string_views(r@) == char_views(sorted@).take(m as int),
        decreases sorted.len() - m,
    {
        let s = string_from_chars(&sorted[m], 0, sorted[m].len());
        assert(sorted@[m as int]@.subrange(0, sorted@[m as int]@.len() as int) =~= sorted@[m as int]@);
        let ghost prev = r@;
        r.push(s);
        assert(r@ == prev.push(s));
        assert(string_views(r@) =~= string_views(prev).push(s@));
        assert(string_views(r@) =~= char_views(sorted@).take(m + 1));
        m = m + 1;
    }
    assert(char_views(sorted@).take(m as int) =~= char_views(sorted@));
    r
}

/// The distinct words of `text`, sorted: each white-space separated piece
/// loses its non-letter ends and is lowercased; empty results are left
/// out.
pub fn extract_words(text: String) -> (words: Vec<String>)
    ensures
        is_sorted_word_list(text@, string_views(words@)),
{
    let chars = chars_of(text.as_str());
    let pieces = split_whitespace(&chars);
    let ghost views = char_views(pieces@);
    let mut found: Vec<String> = Vec::new();
    let mut k: usize = 0;
    while k < pieces.len()
        invariant
            k <= pieces.len(),
            views == char_views(pieces@),
            views == words_of(text@),
            forall|w: Seq<char>| string_views(found@).contains(w) <==> (w.len() > 0
                && exists|i: int| 0 <= i < k && cleaned(#[trigger] views[i]) == w),
        decreases pieces.len() - k,
    {
        let piece = &pieces[k];
        let (a, b) = trim_bounds(piece, 0, piece.len(), false);
        assert(piece@.subrange(0, piece@.len() as int) =~= piece@);
        let trimmed = string_from_chars(piece, a, b);
        let lower = to_lower(trimmed.as_str());
        assert(lower@ == cleaned(views[k as int]));
        let ghost before = string_views(found@);
        if !lower.as_str().is_empty() {
            found.push(lower);
            assert(string_views(found@) =~= before.push(cleaned(views[k as int])));
        }
        assert forall|w: Seq<char>| string_views(found@).contains(w) <==> (w.len() > 0
                && exists|i: int| 0 <= i < k + 1 && cleaned(#[trigger] views[i]) == w) by {
            if w.len() > 0 && w == cleaned(views[k as int]) {
                assert(string_views(found@)[string_views(found@).len() - 1] == w);
            }
            if string_views(found@).contains(w) {
                let j = choose|j: int| 0 <= j < string_views(found@).len() && string_views(found@)[j] == w;
                if j < before.len() {
                    assert(before[j] == w);
                    assert(before.contains(w));
                }
            }
            if w.len() > 0 && (exists|i: int| 0 <= i < k + 1 && cleaned(#[trigger] views[i]) == w) {
                let i = choose|i: int| 0 <= i < k + 1 && cleaned(#[trigger] views[i]) == w;
                if i < k {
                    assert(before.contains(w));
                    let j = choose|j: int| 0 <= j < before.len() && before[j] == w;
                    assert(string_views(found@)[j] == w);
                }
            }
        }
        k = k + 1;
    }
    sort_unique_words(&found)
}

/// The elements of `list` with `sep` between each two.
pub open spec fn joined(list: Seq<Seq<char>>, sep: Seq<char>) -> Seq<char>
    decreases list.len(),
{
    if list.len() == 0 {
        seq![]
    } else if list.len() == 1 {
        list[0]
    } else {
        joined(list.drop_last(), sep) + sep + list.last()
    }
}

/// The strings of `list` with `sep` between each two (`join`).
pub fn join_with(list: &Vec<String>, sep: &str) -> (r: String)
    ensures
        r@ == joined(string_views(list@), sep@),
{
    let mut r = String::new();
    let mut i: usize = 0;
    while i < list.len()
        invariant
            i <= list.len(),
            r@ == joined(string_views(list@).take(i as int), sep@),
        decreases list.len() - i,
    {
        let ghost views = string_views(list@);
        assert(views.take(i + 1).drop_last() =~= views.take(i as int));
        assert(views.take(i + 1).last() == list@[i as int]@);
        if i != 0 {
            r.append(sep);
        } else {
            assert(views.take(1) =~= seq![list@[0]@]);
        }
        r.append(list[i].as_str());
        i = i + 1;
    }
    assert(string_views(list@).take(list.len() as int) =~= string_views(list@));
    r
}

/// The answer to a text: its distinct words, sorted, one per line.
pub fn sorted_word_lines(text: String) -> (r: String)
    ensures
        exists|words: Seq<Seq<char>>|
            #[trigger] is_sorted_word_list(text@, words) && r@ == joined(words, "\n"@),
{
    let words = extract_words(text);
    join_with(&words, "\n")
}

/// A message that arrives on the word-sorter socket.
#[derive(Debug)]
pub enum SocketMessage {
    Text(String),
    Binary(Vec<u8>),
    Ping(Vec<u8>),
    Pong(Vec<u8>),
    /// The peer closes, with a close code and reason when it gave one.
    Close(Option<(u16, String)>),
}

/// What the socket loop does with a message.
#[derive(Debug)]
pub enum SocketAction {
    /// Send this text back.
    Reply(String),
    /// Nothing to send.
    Ignore,
    /// Stop and close the connection.
    Close,
}

/// The word-sorter socket: a text is answered with its sorted word list, a
/// close request ends the connection, anything else is only noted.
pub fn on_socket_message(msg: SocketMessage) -> (a: SocketAction)
    ensures
        match msg {
            SocketMessage::Text(t) => a matches SocketAction::Reply(r) && exists|words: Seq<Seq<char>>|
                #[trigger] is_sorted_word_list(t@, words) && r@ == joined(words, "\n"@),
            SocketMessage::Close(_) => a is Close,
            _ => a is Ignore,
        },
{
    match msg {
        SocketMessage::Text(t) => SocketAction::Reply(sorted_word_lines(t)),
        SocketMessage::Close(_) => SocketAction::Close,
        _ => SocketAction::Ignore,
    }
}

} // verus!
