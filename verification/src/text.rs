use vstd::prelude::*;

verus! {

/// Whether a character has the Unicode `Alphabetic` property.
pub uninterp spec fn alphabetic(c: char) -> bool;

/// Whether a character has the Unicode `White_Space` property: the control
/// characters U+0009 to U+000D, the space, U+0085, the no-break space, the
/// Ogham space mark, the spaces U+2000 to U+200A, the line and paragraph
/// separators, the narrow no-break space, the medium mathematical space and
/// the ideographic space.
pub open spec fn white_space(c: char) -> bool {
    let n = c as int;
    ||| 0x9 <= n <= 0xD
    ||| n == 0x20
    ||| n == 0x85
    ||| n == 0xA0
    ||| n == 0x1680
    ||| 0x2000 <= n <= 0x200A
    ||| n == 0x2028
    ||| n == 0x2029
    ||| n == 0x202F
    ||| n == 0x205F
    ||| n == 0x3000
}

/// The Unicode lowercase mapping of a whole string.
pub uninterp spec fn lowercase(s: Seq<char>) -> Seq<char>;

/// `char::is_alphabetic`: true exactly for the characters with the Unicode
/// `Alphabetic` property, named here by `alphabetic`.
#[verifier::external_body]
pub(crate) fn char_is_alphabetic(c: char) -> (r: bool)
    ensures
        r == alphabetic(c),
{
    c.is_alphabetic()
}

/// Whether `c` is white space (what `char::is_whitespace` answers).
pub fn char_is_whitespace(c: char) -> (r: bool)
    ensures
        r == white_space(c),
{
    ('\u{9}' <= c && c <= '\u{d}') || c == ' ' || c == '\u{85}' || c == '\u{a0}' || c == '\u{1680}'
        || ('\u{2000}' <= c && c <= '\u{200a}') || c == '\u{2028}' || c == '\u{2029}' || c
        == '\u{202f}' || c == '\u{205f}' || c == '\u{3000}'
}

/// `str::to_lowercase`: the lowercase form of the whole string, a function of
/// its characters alone, named here by `lowercase`.
#[verifier::external_body]
pub(crate) fn str_to_lowercase(s: &str) -> (r: String)
    ensures
        r@ == lowercase(s@),
{
    s.to_lowercase()
}

/// An ASCII character.
pub open spec fn is_ascii_char(c: char) -> bool {
    (c as int) < 128
}

/// A text of ASCII characters only.
pub open spec fn is_ascii_text(s: Seq<char>) -> bool {
    forall|i: int| 0 <= i < s.len() ==> is_ascii_char(#[trigger] s[i])
}

/// An ASCII letter.
pub open spec fn is_ascii_letter(c: char) -> bool {
    ('a' <= c && c <= 'z') || ('A' <= c && c <= 'Z')
}

/// `char::to_ascii_lowercase`.
pub open spec fn ascii_lower_char(c: char) -> char {
    if 'A' <= c && c <= 'Z' {
        ((c as int) + 32) as char
    } else {
        c
    }
}

/// `char::to_ascii_uppercase`.
pub open spec fn ascii_upper_char(c: char) -> char {
    if 'a' <= c && c <= 'z' {
        ((c as int) - 32) as char
    } else {
        c
    }
}

/// `str::to_ascii_lowercase`.
pub open spec fn ascii_lower_text(s: Seq<char>) -> Seq<char> {
    s.map_values(|c: char| ascii_lower_char(c))
}

/// `str::to_ascii_uppercase`.
pub open spec fn ascii_upper_text(s: Seq<char>) -> Seq<char> {
    s.map_values(|c: char| ascii_upper_char(c))
}

/// Whether a character is a letter (what `char::is_alphabetic` answers):
/// among ASCII characters exactly the letters `A`-`Z` and `a`-`z`, and
/// elsewhere the characters with the Unicode `Alphabetic` property.
pub open spec fn letter(c: char) -> bool {
    if is_ascii_char(c) {
        is_ascii_letter(c)
    } else {
        alphabetic(c)
    }
}

/// The lowercase form of a text (what `str::to_lowercase` gives): an ASCII
/// text has its letters `A`-`Z` turned into `a`-`z`; any other text takes
/// the Unicode lowercase mapping.
pub open spec fn lowercased(s: Seq<char>) -> Seq<char> {
    if is_ascii_text(s) {
        ascii_lower_text(s)
    } else {
        lowercase(s)
    }
}

/// Whether `c` is a letter.
pub fn is_letter(c: char) -> (r: bool)
    ensures
        r == letter(c),
{
    if '\u{7f}' >= c {
        ('a' <= c && c <= 'z') || ('A' <= c && c <= 'Z')
    } else {
        char_is_alphabetic(c)
    }
}

fn ascii_lower(c: char) -> (r: char)
    requires
        is_ascii_char(c),
    ensures
        r == ascii_lower_char(c),
{
    if 'A' <= c && c <= 'Z' {
        let b = c as u8;
        (b + 32) as char
    } else {
        c
    }
}

/// The lowercase form of a text.
pub fn to_lower(s: &str) -> (r: String)
    ensures
        r@ == lowercased(s@),
{
    let chars = chars_of(s);
    let mut i: usize = 0;
    while i < chars.len()
        invariant
            i <= chars.len(),
            chars@ == s@,
            forall|j: int| 0 <= j < i ==> is_ascii_char(#[trigger] chars@[j]),
        decreases chars.len() - i,
    {
        if chars[i] > '\u{7f}' {
            return str_to_lowercase(s);
        }
        i = i + 1;
    }
    let mut r = String::new();
    let mut k: usize = 0;
    while k < chars.len()
        invariant
            k <= chars.len(),
            chars@ == s@,
            is_ascii_text(s@),
            r@ == ascii_lower_text(s@.take(k as int)),
        decreases chars.len() - k,
    {
        let c = ascii_lower(chars[k]);
        string_push(&mut r, c);
        assert(ascii_lower_text(s@.take(k + 1)) =~= ascii_lower_text(s@.take(k as int)).push(c));
        k = k + 1;
    }
    assert(s@.take(chars.len() as int) =~= s@);
    r
}

/// `String::push`: appends one character.
#[verifier::external_body]
pub(crate) fn string_push(s: &mut String, c: char)
    ensures
        final(s)@ == old(s)@.push(c),
{
    s.push(c)
}

/// The characters of a string, in order.
pub fn chars_of(s: &str) -> (v: Vec<char>)
    ensures
        v@ == s@,
{
    let mut v: Vec<char> = Vec::new();
    for c in it: s.chars()
        invariant
            v@ == it.seq().take(it.index() as int),
    {
        v.push(c);
    }
    assert(v@ =~= s@);
    v
}

/// A string made of the characters `v[lo..hi]`.
pub fn string_from_chars(v: &Vec<char>, lo: usize, hi: usize) -> (s: String)
    requires
        lo <= hi <= v.len(),
    ensures
        s@ == v@.subrange(lo as int, hi as int),
{
    let mut s = String::new();
    let mut i = lo;
    while i < hi
        invariant
            lo <= i <= hi <= v.len(),
            s@ == v@.subrange(lo as int, i as int),
        decreases hi - i,
    {
        string_push(&mut s, v[i]);
        assert(s@ =~= v@.subrange(lo as int, i + 1));
        i = i + 1;
    }
    s
}

/// The maximal runs of non-white-space characters of `s`, in order: what
/// `str::split_whitespace` yields.
pub open spec fn words_of(s: Seq<char>) -> Seq<Seq<char>>
    decreases s.len(),
{
    if s.len() == 0 {
        seq![]
    } else {
        let rest = words_of(s.drop_last());
        let c = s.last();
        if white_space(c) {
            rest
        } else if s.len() >= 2 && !white_space(s[s.len() - 2]) {
            rest.drop_last().push(rest.last().push(c))
        } else {
            rest.push(seq![c])
        }
    }
}

/// The character views of a vector of character vectors.
pub open spec fn char_views(v: Seq<Vec<char>>) -> Seq<Seq<char>> {
    v.map_values(|w: Vec<char>| w@)
}

/// Splits `s` at white space, dropping empty pieces.
pub fn split_whitespace(s: &Vec<char>) -> (words: Vec<Vec<char>>)
    ensures
        char_views(words@) == words_of(s@),
{
    let mut done: Vec<Vec<char>> = Vec::new();
    let mut start: usize = 0;
    let mut in_word = false;
    let mut i: usize = 0;
    let n = s.len();
    while i < n
        invariant
            n == s.len(),
            i <= n,
            start <= i,
            in_word <==> (i > 0 && !white_space(s@[i - 1])),
            in_word ==> words_of(s@.take(i as int)) == char_views(done@).push(s@.subrange(start as int, i as int)),
            !in_word ==> words_of(s@.take(i as int)) == char_views(done@),
        decreases n - i,
    {
        let c = s[i];
        let ghost prefix = s@.take(i + 1);
        assert(prefix.drop_last() =~= s@.take(i as int));
        assert(prefix.last() == c);
        if char_is_whitespace(c) {
            if in_word {
                let mut w: Vec<char> = Vec::new();
                let mut k = start;
                while k < i
                    invariant
                        start <= k <= i < n == s.len(),
                        w@ == s@.subrange(start as int, k as int),
                    decreases i - k,
                {
                    w.push(s[k]);
                    assert(w@ =~= s@.subrange(start as int, k + 1));
                    k = k + 1;
                }
                let ghost before = char_views(done@);
                done.push(w);
                assert(char_views(done@) =~= before.push(s@.subrange(start as int, i as int)));
            }
            in_word = false;
        } else {
            if in_word {
                assert(s@.subrange(start as int, i + 1) =~= s@.subrange(start as int, i as int).push(c));
            } else {
                start = i;
                assert(s@.subrange(start as int, i + 1) =~= seq![c]);
            }
            in_word = true;
        }
        i = i + 1;
    }
    assert(s@.take(n as int) =~= s@);
    if in_word {
        let mut w: Vec<char> = Vec::new();
        let mut k = start;
        while k < n
            invariant
                start <= k <= n == s.len(),
                w@ == s@.subrange(start as int, k as int),
            decreases n - k,
        {
            w.push(s[k]);
            assert(w@ =~= s@.subrange(start as int, k + 1));
            k = k + 1;
        }
        let ghost before = char_views(done@);
        done.push(w);
        assert(char_views(done@) =~= before.push(s@.subrange(start as int, n as int)));
    }
    done
}

/// The characters that trimming removes: white space, or, for word cleaning,
/// every character that is not a letter.
pub open spec fn trimmed_away(c: char, white: bool) -> bool {
    if white {
        white_space(c)
    } else {
        !letter(c)
    }
}

/// `s` without its leading characters that `trimmed_away` removes.
pub open spec fn trim_start(s: Seq<char>, white: bool) -> Seq<char>
    decreases s.len(),
{
    if s.len() > 0 && trimmed_away(s[0], white) {
        trim_start(s.subrange(1, s.len() as int), white)
    } else {
        s
    }
}

/// `s` without its trailing characters that `trimmed_away` removes.
pub open spec fn trim_end(s: Seq<char>, white: bool) -> Seq<char>
    decreases s.len(),
{
    if s.len() > 0 && trimmed_away(s.last(), white) {
        trim_end(s.drop_last(), white)
    } else {
        s
    }
}

/// `s` trimmed at both ends: `str::trim` when `white` holds, and
/// `str::trim_matches(|c| !c.is_alphabetic())` when it does not.
pub open spec fn trim(s: Seq<char>, white: bool) -> Seq<char> {
    trim_end(trim_start(s, white), white)
}

fn is_trimmed_away(c: char, white: bool) -> (r: bool)
    ensures
        r == trimmed_away(c, white),
{
    if white {
        char_is_whitespace(c)
    } else {
        !is_letter(c)
    }
}

/// The bounds of the trimmed part of `v[lo..hi]`.
pub fn trim_bounds(v: &Vec<char>, lo: usize, hi: usize, white: bool) -> (r: (usize, usize))
    requires
        lo <= hi <= v.len(),
    ensures
        lo <= r.0 <= r.1 <= hi,
        v@.subrange(r.0 as int, r.1 as int) == trim(v@.subrange(lo as int, hi as int), white),
{
    let mut a = lo;
    while a < hi && is_trimmed_away(v[a], white)
        invariant
            lo <= a <= hi <= v.len(),
            trim_start(v@.subrange(lo as int, hi as int), white) == trim_start(v@.subrange(a as int, hi as int), white),
        decreases hi - a,
    {
        assert(v@.subrange(a as int, hi as int).subrange(1, hi - a) =~= v@.subrange(a + 1, hi as int));
        a = a + 1;
    }
    let ghost front = v@.subrange(a as int, hi as int);
    assert(trim_start(front, white) == front);
    let mut b = hi;
    while b > a && is_trimmed_away(v[b - 1], white)
        invariant
            lo <= a <= b <= hi <= v.len(),
            trim_end(front, white) == trim_end(v@.subrange(a as int, b as int), white),
        decreases b - a,
    {
        assert(v@.subrange(a as int, b as int).drop_last() =~= v@.subrange(a as int, b - 1));
        b = b - 1;
    }
    assert(trim_end(v@.subrange(a as int, b as int), white) == v@.subrange(a as int, b as int));
    (a, b)
}

/// Lexicographic order on character sequences (a proper prefix comes
/// first), the order of `String`s.
pub open spec fn seq_less(a: Seq<char>, b: Seq<char>) -> bool
    decreases a.len(),
{
    if a.len() == 0 {
        b.len() > 0
    } else if b.len() == 0 {
        false
    } else if a[0] != b[0] {
        (a[0] as int) < (b[0] as int)
    } else {
        seq_less(a.drop_first(), b.drop_first())
    }
}

pub proof fn lemma_seq_less_irreflexive(a: Seq<char>)
    ensures
        !seq_less(a, a),
    decreases a.len(),
{
    if a.len() > 0 {
        lemma_seq_less_irreflexive(a.drop_first());
    }
}

pub proof fn lemma_seq_less_total(a: Seq<char>, b: Seq<char>)
    ensures
        a == b || seq_less(a, b) || seq_less(b, a),
        !(seq_less(a, b) && seq_less(b, a)),
    decreases a.len(),
{
    if a.len() > 0 && b.len() > 0 {
        lemma_seq_less_total(a.drop_first(), b.drop_first());
        if a[0] == b[0] && a.drop_first() == b.drop_first() {
            assert(a =~= seq![a[0]] + a.drop_first());
            assert(b =~= seq![b[0]] + b.drop_first());
        }
    } else if a.len() == 0 && b.len() == 0 {
        assert(a =~= b);
    }
}

pub proof fn lemma_seq_less_transitive(a: Seq<char>, b: Seq<char>, c: Seq<char>)
    requires
        seq_less(a, b),
        seq_less(b, c),
    ensures
        seq_less(a, c),
    decreases a.len(),
{
    if a.len() > 0 && b.len() > 0 && c.len() > 0 && a[0] == b[0] && b[0] == c[0] {
        lemma_seq_less_transitive(a.drop_first(), b.drop_first(), c.drop_first());
    }
}

/// Compares two character sequences in lexicographic order.
pub fn chars_less(a: &Vec<char>, b: &Vec<char>) -> (r: bool)
    ensures
        r == seq_less(a@, b@),
{
    let mut i: usize = 0;
    assert(a@.skip(0) =~= a@);
    assert(b@.skip(0) =~= b@);
    while i < a.len() && i < b.len() && a[i] == b[i]
        invariant
            i <= a.len(),
            i <= b.len(),
            seq_less(a@, b@) == seq_less(a@.skip(i as int), b@.skip(i as int)),
        decreases a.len() - i,
    {
        assert(a@.skip(i as int).drop_first() =~= a@.skip(i + 1));
        assert(b@.skip(i as int).drop_first() =~= b@.skip(i + 1));
        i = i + 1;
    }
    if i == a.len() {
        i < b.len()
    } else if i == b.len() {
        false
    } else {
        a[i] < b[i]
    }
}

/// Whether two character sequences are equal.
pub fn chars_equal(a: &Vec<char>, b: &Vec<char>) -> (r: bool)
    ensures
        r == (a@ == b@),
{
    if a.len() != b.len() {
        return false;
    }
    let mut i: usize = 0;
    while i < a.len()
        invariant
            i <= a.len() == b.len(),
            forall|j: int| 0 <= j < i ==> a@[j] == b@[j],
        decreases a.len() - i,
    {
        if a[i] != b[i] {
            return false;
        }
        i = i + 1;
    }
    assert(a@ =~= b@);
    true
}

/// A raw answer as the programs read it: trimmed of white space at both
/// ends, then lowercased.
pub open spec fn normalized(raw: Seq<char>) -> Seq<char> {
    lowercased(trim(raw, true))
}

/// Trims white space off both ends and lowercases what is left.
pub fn trim_and_lowercase(raw: &str) -> (r: String)
    ensures
        r@ == normalized(raw@),
{
    let chars = chars_of(raw);
    let (a, b) = trim_bounds(&chars, 0, chars.len(), true);
    assert(chars@.subrange(0, chars@.len() as int) =~= chars@);
    let trimmed = string_from_chars(&chars, a, b);
    to_lower(trimmed.as_str())
}

/// Every character of `s` satisfies `p`.
pub open spec fn all_chars(s: Seq<char>, p: spec_fn(char) -> bool) -> bool {
    forall|i: int| 0 <= i < s.len() ==> #[trigger] p(s[i])
}

/// A text that ends with white space (or is empty) splits apart from what
/// follows it.
pub proof fn lemma_words_of_concat(x: Seq<char>, y: Seq<char>)
    requires
        x.len() == 0 || white_space(x.last()),
    ensures
        words_of(x + y) == words_of(x) + words_of(y),
    decreases y.len(),
{
    if y.len() == 0 {
        assert(x + y =~= x);
        assert(words_of(x) + words_of(y) =~= words_of(x));
    } else {
        let z = x + y;
        let y1 = y.drop_last();
        let c = y.last();
        assert(z.drop_last() =~= x + y1);
        assert(z.last() == c);
        lemma_words_of_concat(x, y1);
        let r = words_of(x);
        let q = words_of(y1);
        if white_space(c) {
        } else if y.len() >= 2 && !white_space(y[y.len() - 2]) {
            assert(z[z.len() - 2] == y[y.len() - 2]);
            assert(y1.last() == y[y.len() - 2]);
            lemma_words_of_nonempty_end(y1);
            assert((r + q).drop_last().push((r + q).last().push(c)) =~= r + q.drop_last().push(
                q.last().push(c),
            ));
        } else {
            if y.len() >= 2 {
                assert(z[z.len() - 2] == y[y.len() - 2]);
            } else if x.len() > 0 {
                assert(z[z.len() - 2] == x.last());
            }
            assert((r + q).push(seq![c]) =~= r + q.push(seq![c]));
        }
    }
}

/// A text that ends in a non-white-space character has a word.
pub proof fn lemma_words_of_nonempty_end(s: Seq<char>)
    requires
        s.len() > 0,
        !white_space(s.last()),
    ensures
        words_of(s).len() > 0,
    decreases s.len(),
{
    if s.len() >= 2 && !white_space(s[s.len() - 2]) {
        assert(s.drop_last().last() == s[s.len() - 2]);
        lemma_words_of_nonempty_end(s.drop_last());
    }
}

/// A non-empty text without white space is a single word.
pub proof fn lemma_words_of_single(w: Seq<char>)
    requires
        w.len() > 0,
        forall|i: int| 0 <= i < w.len() ==> !white_space(#[trigger] w[i]),
    ensures
        words_of(w) == seq![w],
    decreases w.len(),
{
    let c = w.last();
    assert(!white_space(w[w.len() - 1]));
    if w.len() >= 2 {
        let w1 = w.drop_last();
        assert forall|i: int| 0 <= i < w1.len() implies !white_space(#[trigger] w1[i]) by {
            assert(w1[i] == w[i]);
        }
        lemma_words_of_single(w1);
        assert(!white_space(w[w.len() - 2]));
        assert(w1.push(c) =~= w);
        assert(words_of(w) == words_of(w1).drop_last().push(words_of(w1).last().push(c)));
        assert(seq![w1].drop_last().push(seq![w1].last().push(c)) =~= seq![w]);
    } else {
        assert(words_of(w.drop_last()) == Seq::<Seq<char>>::empty());
        assert(words_of(w) == words_of(w.drop_last()).push(seq![c]));
        assert(w.drop_last() =~= Seq::<char>::empty());
        assert(seq![c] =~= w);
        assert(Seq::<Seq<char>>::empty().push(seq![c]) =~= seq![w]);
    }
}

/// Each word of a text is non-empty, holds no white space, and holds only
/// characters that satisfy whatever all characters of the text satisfy.
pub proof fn lemma_words_of_elements(s: Seq<char>, p: spec_fn(char) -> bool)
    ensures
        forall|i: int| 0 <= i < words_of(s).len() ==> (#[trigger] words_of(s)[i]).len() > 0,
        forall|i: int, j: int|
            0 <= i < words_of(s).len() && 0 <= j < words_of(s)[i].len() ==> !white_space(
                #[trigger] words_of(s)[i][j],
            ),
        all_chars(s, p) ==> forall|i: int| 0 <= i < words_of(s).len() ==> all_chars(#[trigger] words_of(s)[i], p),
    decreases s.len(),
{
    if s.len() > 0 {
        let s1 = s.drop_last();
        lemma_words_of_elements(s1, p);
        let c = s.last();
        let rest = words_of(s1);
        if all_chars(s, p) {
            assert forall|i: int| 0 <= i < s1.len() implies #[trigger] p(s1[i]) by {
                assert(s1[i] == s[i]);
            }
            assert(p(s[s.len() - 1]));
        }
        if white_space(c) {
        } else if s.len() >= 2 && !white_space(s[s.len() - 2]) {
            assert(s1.last() == s[s.len() - 2]);
            lemma_words_of_nonempty_end(s1);
            let w = rest.last().push(c);
            let ws = rest.drop_last().push(w);
            assert forall|i: int| 0 <= i < ws.len() implies (#[trigger] ws[i]).len() > 0 by {
                if i < ws.len() - 1 {
                    assert(ws[i] == rest[i]);
                }
            }
            assert forall|i: int, j: int| 0 <= i < ws.len() && 0 <= j < ws[i].len() implies !white_space(
                #[trigger] ws[i][j],
            ) by {
                if i < ws.len() - 1 {
                    assert(ws[i] == rest[i]);
                } else if j < w.len() - 1 {
                    assert(ws[i][j] == rest[rest.len() - 1][j]);
                }
            }
            if all_chars(s, p) {
                assert forall|i: int| 0 <= i < ws.len() implies all_chars(#[trigger] ws[i], p) by {
                    if i < ws.len() - 1 {
                        assert(ws[i] == rest[i]);
                    } else {
                        let last = rest[rest.len() - 1];
                        assert(all_chars(last, p));
                        assert forall|j: int| 0 <= j < w.len() implies #[trigger] p(w[j]) by {
                            if j < w.len() - 1 {
                                assert(w[j] == last[j]);
                            }
                        }
                    }
                }
            }
        } else {
            let ws = rest.push(seq![c]);
            assert forall|i: int| 0 <= i < ws.len() implies (#[trigger] ws[i]).len() > 0 by {
                if i < ws.len() - 1 {
                    assert(ws[i] == rest[i]);
                }
            }
            assert forall|i: int, j: int| 0 <= i < ws.len() && 0 <= j < ws[i].len() implies !white_space(
                #[trigger] ws[i][j],
            ) by {
                if i < ws.len() - 1 {
                    assert(ws[i] == rest[i]);
                }
            }
            if all_chars(s, p) {
                assert forall|i: int| 0 <= i < ws.len() implies all_chars(#[trigger] ws[i], p) by {
                    if i < ws.len() - 1 {
                        assert(ws[i] == rest[i]);
                    }
                }
            }
        }
    }
}

/// Mapping the characters by a function that keeps white space and
/// non-white-space apart maps each word.
pub proof fn lemma_words_of_map(s: Seq<char>, f: spec_fn(char) -> char)
    requires
        forall|c: char| white_space(#[trigger] f(c)) == white_space(c),
    ensures
        words_of(s.map_values(f)) == words_of(s).map_values(|w: Seq<char>| w.map_values(f)),
    decreases s.len(),
{
    let g = |w: Seq<char>| w.map_values(f);
    let t = s.map_values(f);
    if s.len() == 0 {
        assert(words_of(s).map_values(g) =~= Seq::<Seq<char>>::empty());
    } else {
        let s1 = s.drop_last();
        let c = s.last();
        assert(t.drop_last() =~= s1.map_values(f));
        assert(t.last() == f(c));
        lemma_words_of_map(s1, f);
        let rest = words_of(s1);
        assert(white_space(f(c)) == white_space(c));
        if white_space(c) {
        } else if s.len() >= 2 && !white_space(s[s.len() - 2]) {
            assert(t[t.len() - 2] == f(s[s.len() - 2]));
            assert(white_space(f(s[s.len() - 2])) == white_space(s[s.len() - 2]));
            assert(s1.last() == s[s.len() - 2]);
            lemma_words_of_nonempty_end(s1);
            assert(rest.last().push(c).map_values(f) =~= rest.last().map_values(f).push(f(c)));
            assert(rest.drop_last().push(rest.last().push(c)).map_values(g) =~= rest.map_values(g).drop_last().push(
                rest.map_values(g).last().push(f(c)),
            ));
        } else {
            if s.len() >= 2 {
                assert(t[t.len() - 2] == f(s[s.len() - 2]));
                assert(white_space(f(s[s.len() - 2])) == white_space(s[s.len() - 2]));
            }
            assert(seq![c].map_values(f) =~= seq![f(c)]);
            assert(rest.push(seq![c]).map_values(g) =~= rest.map_values(g).push(seq![f(c)]));
        }
    }
}

/// Trimming keeps only characters of the text.
pub proof fn lemma_trim_all_chars(s: Seq<char>, white: bool, p: spec_fn(char) -> bool)
    requires
        all_chars(s, p),
    ensures
        all_chars(trim_start(s, white), p),
        all_chars(trim_end(s, white), p),
        all_chars(trim(s, white), p),
    decreases s.len(),
{
    if s.len() > 0 {
        let a = s.subrange(1, s.len() as int);
        let b = s.drop_last();
        assert forall|i: int| 0 <= i < a.len() implies #[trigger] p(a[i]) by {
            assert(a[i] == s[i + 1]);
        }
        assert forall|i: int| 0 <= i < b.len() implies #[trigger] p(b[i]) by {
            assert(b[i] == s[i]);
        }
        lemma_trim_all_chars(a, white, p);
        lemma_trim_all_chars(b, white, p);
    }
    lemma_trim_start_end_chars(trim_start(s, white), white, p);
}

proof fn lemma_trim_start_end_chars(s: Seq<char>, white: bool, p: spec_fn(char) -> bool)
    requires
        all_chars(s, p),
    ensures
        all_chars(trim_end(s, white), p),
    decreases s.len(),
{
    if s.len() > 0 {
        let b = s.drop_last();
        assert forall|i: int| 0 <= i < b.len() implies #[trigger] p(b[i]) by {
            assert(b[i] == s[i]);
        }
        lemma_trim_start_end_chars(b, white, p);
    }
}

/// What trimming leaves is empty or starts and ends with a kept character.
pub proof fn lemma_trim_ends(s: Seq<char>, white: bool)
    ensures
        trim_start(s, white).len() == 0 || !trimmed_away(trim_start(s, white)[0], white),
        trim(s, white).len() == 0 || (!trimmed_away(trim(s, white)[0], white) && !trimmed_away(
            trim(s, white).last(),
            white,
        )),
    decreases s.len(),
{
    if s.len() > 0 && trimmed_away(s[0], white) {
        lemma_trim_ends(s.subrange(1, s.len() as int), white);
    }
    lemma_trim_end_prefix(trim_start(s, white), white);
}

proof fn lemma_trim_end_prefix(u: Seq<char>, white: bool)
    ensures
        trim_end(u, white).len() <= u.len(),
        trim_end(u, white) == u.subrange(0, trim_end(u, white).len() as int),
        trim_end(u, white).len() == 0 || !trimmed_away(trim_end(u, white).last(), white),
        forall|j: int| trim_end(u, white).len() <= j < u.len() ==> trimmed_away(#[trigger] u[j], white),
    decreases u.len(),
{
    if u.len() > 0 && trimmed_away(u.last(), white) {
        lemma_trim_end_prefix(u.drop_last(), white);
        let t = trim_end(u.drop_last(), white);
        assert(u.drop_last().subrange(0, t.len() as int) =~= u.subrange(0, t.len() as int));
        assert forall|j: int| t.len() <= j < u.len() implies trimmed_away(#[trigger] u[j], white) by {
            if j < u.len() - 1 {
                assert(u.drop_last()[j] == u[j]);
            }
        }
    } else {
        assert(u.subrange(0, u.len() as int) =~= u);
    }
}

proof fn lemma_trim_start_suffix(s: Seq<char>, white: bool)
    ensures
        trim_start(s, white).len() <= s.len(),
        trim_start(s, white) == s.subrange(s.len() - trim_start(s, white).len(), s.len() as int),
        trim_start(s, white).len() == 0 || !trimmed_away(trim_start(s, white)[0], white),
        forall|j: int| 0 <= j < s.len() - trim_start(s, white).len() ==> trimmed_away(#[trigger] s[j], white),
    decreases s.len(),
{
    if s.len() > 0 && trimmed_away(s[0], white) {
        let s1 = s.subrange(1, s.len() as int);
        lemma_trim_start_suffix(s1, white);
        let t = trim_start(s1, white);
        assert(s1.subrange(s1.len() - t.len(), s1.len() as int) =~= s.subrange(s.len() - t.len(), s.len() as int));
        assert forall|j: int| 0 <= j < s.len() - t.len() implies trimmed_away(#[trigger] s[j], white) by {
            if j > 0 {
                assert(s1[j - 1] == s[j]);
            }
        }
    } else {
        assert(s.subrange(0, s.len() as int) =~= s);
    }
}

/// Trimming keeps a stretch `s[a..b]` of the text: everything before `a`
/// and from `b` on is removed by trimming, and when the stretch is not
/// empty it starts and ends with a kept character. It returns `(a, b)`.
pub proof fn trim_range(s: Seq<char>, white: bool) -> (r: (int, int))
    ensures
        0 <= r.0 <= r.1 <= s.len(),
        trim(s, white) == s.subrange(r.0, r.1),
        forall|j: int| 0 <= j < r.0 ==> trimmed_away(#[trigger] s[j], white),
        forall|j: int| r.1 <= j < s.len() ==> trimmed_away(#[trigger] s[j], white),
        r.0 < r.1 ==> !trimmed_away(s[r.0], white) && !trimmed_away(s[r.1 - 1], white),
{
    lemma_trim_start_suffix(s, white);
    let t = trim_start(s, white);
    let a = s.len() - t.len();
    lemma_trim_end_prefix(t, white);
    let t2 = trim_end(t, white);
    let b = a + t2.len();
    assert(t2 =~= s.subrange(a, b));
    assert forall|j: int| b <= j < s.len() implies trimmed_away(#[trigger] s[j], white) by {
        assert(s[j] == t[j - a]);
    }
    if a < b {
        assert(s[a] == t[0]);
        assert(s[b - 1] == t2.last());
    }
    (a, b)
}

/// A text that starts and ends with kept characters is not changed by
/// trimming.
pub proof fn lemma_trim_fixed(q: Seq<char>, white: bool)
    requires
        q.len() == 0 || (!trimmed_away(q[0], white) && !trimmed_away(q.last(), white)),
    ensures
        trim(q, white) == q,
{
}

/// Mapping the characters by a function that keeps what trimming removes
/// apart from what it keeps commutes with trimming.
pub proof fn lemma_trim_map(s: Seq<char>, white: bool, f: spec_fn(char) -> char)
    requires
        forall|c: char| trimmed_away(#[trigger] f(c), white) == trimmed_away(c, white),
    ensures
        trim_start(s.map_values(f), white) == trim_start(s, white).map_values(f),
        trim_end(s.map_values(f), white) == trim_end(s, white).map_values(f),
        trim(s.map_values(f), white) == trim(s, white).map_values(f),
    decreases s.len(),
{
    let t = s.map_values(f);
    if s.len() > 0 {
        assert(t[0] == f(s[0]));
        assert(trimmed_away(f(s[0]), white) == trimmed_away(s[0], white));
        assert(t.last() == f(s.last()));
        assert(trimmed_away(f(s.last()), white) == trimmed_away(s.last(), white));
        assert(t.subrange(1, t.len() as int) =~= s.subrange(1, s.len() as int).map_values(f));
        assert(t.drop_last() =~= s.drop_last().map_values(f));
        lemma_trim_map(s.subrange(1, s.len() as int), white, f);
        lemma_trim_map(s.drop_last(), white, f);
    }
    lemma_trim_end_map(trim_start(s, white), white, f);
}

proof fn lemma_trim_end_map(s: Seq<char>, white: bool, f: spec_fn(char) -> char)
    requires
        forall|c: char| trimmed_away(#[trigger] f(c), white) == trimmed_away(c, white),
    ensures
        trim_end(s.map_values(f), white) == trim_end(s, white).map_values(f),
    decreases s.len(),
{
    let t = s.map_values(f);
    if s.len() > 0 {
        assert(t.last() == f(s.last()));
        assert(trimmed_away(f(s.last()), white) == trimmed_away(s.last(), white));
        assert(t.drop_last() =~= s.drop_last().map_values(f));
        lemma_trim_end_map(s.drop_last(), white, f);
    }
}

} // verus!
