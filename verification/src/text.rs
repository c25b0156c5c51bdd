//! Text: the parts of std's string handling that the library relies on, and
//! functions on characters.

use vstd::prelude::*;
use vstd::string::*;

verus! {

/// What `String::from_utf8_lossy` makes of a sequence of bytes.
pub uninterp spec fn utf8_lossy(bytes: Seq<u8>) -> Seq<char>;

/// `String::from_utf8_lossy`: the text of valid UTF-8 is that text; in other
/// bytes, what is not valid is replaced.
#[verifier::external_body]
pub(crate) fn from_utf8_lossy(bytes: &[u8]) -> (r: String)
    ensures
        r@ == utf8_lossy(bytes@),
        vstd::utf8::valid_utf8(bytes@) ==> r@ == vstd::utf8::decode_utf8(bytes@),
{
    String::from_utf8_lossy(bytes).to_string()
}

/// `String::push` appends a character.
pub assume_specification[ String::push ](s: &mut String, ch: char)
    ensures
        final(s)@ == old(s)@.push(ch),
;

/// The characters of a text.
pub fn chars_of(s: &str) -> (r: Vec<char>)
    ensures
        r@ == s@,
{
    let mut r: Vec<char> = Vec::new();
    for c in it: s.chars()
        invariant
            it.seq() == s@,
            r@ == it.seq().take(it.index()),
    {
        r.push(c);
    }
    assert(s@.take(s@.len() as int) =~= s@);
    r
}

/// The text made of some characters.
pub fn string_of(chars: &[char]) -> (r: String)
    ensures
        r@ == chars@,
{
    let mut r = String::new();
    let n: usize = chars.len();
    let mut i: usize = 0;
    while i < n
        invariant
            i <= n,
            n == chars@.len(),
            r@ == chars@.take(i as int),
        decreases n - i,
    {
        r.push(chars[i]);
        i = i + 1;
        assert(r@ =~= chars@.take(i as int));
    }
    assert(chars@.take(n as int) =~= chars@);
    r
}

/// Whether two texts are the same.
pub fn same_text(a: &str, b: &str) -> (r: bool)
    ensures
        r == (a@ == b@),
{
    let x = chars_of(a);
    let y = chars_of(b);
    if x.len() != y.len() {
        return false;
    }
    let mut i: usize = 0;
    while i < x.len()
        invariant
            i <= x@.len(),
            x@ == a@,
            y@ == b@,
            x@.len() == y@.len(),
            x@.take(i as int) == y@.take(i as int),
        decreases x@.len() - i,
    {
        if x[i] != y[i] {
            assert(x@[i as int] != y@[i as int]);
            return false;
        }
        i = i + 1;
        assert(x@.take(i as int) =~= y@.take(i as int)) by {
            assert forall|j: int| 0 <= j < i implies x@[j] == y@[j] by {
                if j < i - 1 {
                    assert(x@.take(i - 1)[j] == y@.take(i - 1)[j]);
                }
            }
        }
    }
    assert(x@.take(i as int) =~= x@);
    assert(y@.take(i as int) =~= y@);
    true
}

/// The two texts one after the other.
pub fn joined(a: &str, b: &str) -> (r: String)
    ensures
        r@ == a@ + b@,
{
    let mut r = a.to_owned();
    r.append(b);
    r
}

/// Whether `needle` occurs in `hay` at position `at`.
pub open spec fn occurs_at(hay: Seq<char>, needle: Seq<char>, at: int) -> bool {
    &&& 0 <= at
    &&& at + needle.len() <= hay.len()
    &&& hay.subrange(at, at + needle.len()) == needle
}

/// Whether `needle` occurs in `hay`.
pub open spec fn occurs(hay: Seq<char>, needle: Seq<char>) -> bool {
    exists|at: int| occurs_at(hay, needle, at)
}

fn matches_at(hay: &Vec<char>, needle: &Vec<char>, at: usize) -> (r: bool)
    requires
        at + needle@.len() <= hay@.len(),
    ensures
        r == occurs_at(hay@, needle@, at as int),
{
    let size: usize = hay.len();
    let n: usize = needle.len();
    let mut i: usize = 0;
    while i < n
        invariant
            i <= n,
            n == needle@.len(),
            size == hay@.len(),
            at + n <= size,
            forall|j: int| 0 <= j < i ==> #[trigger] needle@[j] == hay@[at + j],
        decreases n - i,
    {
        if hay[at + i] != needle[i] {
            assert(hay@.subrange(at as int, at + n)[i as int] != needle@[i as int]);
            return false;
        }
        i = i + 1;
    }
    assert(hay@.subrange(at as int, at + n) =~= needle@);
    true
}

/// Whether `needle` occurs in `hay`; the empty text occurs in any.
pub fn contains_text(hay: &str, needle: &str) -> (r: bool)
    ensures
        r == occurs(hay@, needle@),
{
    let h = chars_of(hay);
    let n = chars_of(needle);
    let size: usize = h.len();
    let length: usize = n.len();
    if length > size {
        return false;
    }
    let mut at: usize = 0;
    while at <= size - length
        invariant
            h@ == hay@,
            n@ == needle@,
            size == h@.len(),
            length == n@.len(),
            length <= size,
            at <= size - length + 1,
            forall|j: int| 0 <= j < at ==> !occurs_at(hay@, needle@, j),
        decreases size - at,
    {
        if matches_at(&h, &n, at) {
            assert(occurs_at(hay@, needle@, at as int));
            return true;
        }
        if at == size - length {
            assert forall|j: int| !occurs_at(hay@, needle@, j) by {}
            return false;
        }
        at = at + 1;
    }
    false
}

/// The Unicode white space characters.
pub open spec fn is_space(c: char) -> bool {
    ||| '\u{9}' <= c <= '\u{d}'
    ||| c == ' '
    ||| c == '\u{85}'
    ||| c == '\u{a0}'
    ||| c == '\u{1680}'
    ||| '\u{2000}' <= c <= '\u{200a}'
    ||| c == '\u{2028}'
    ||| c == '\u{2029}'
    ||| c == '\u{202f}'
    ||| c == '\u{205f}'
    ||| c == '\u{3000}'
}

/// Whether a character is white space.
pub fn is_white_space(c: char) -> (r: bool)
    ensures
        r == is_space(c),
{
    ('\u{9}' <= c && c <= '\u{d}') || c == ' ' || c == '\u{85}' || c == '\u{a0}' || c == '\u{1680}'
        || ('\u{2000}' <= c && c <= '\u{200a}') || c == '\u{2028}' || c == '\u{2029}' || c
        == '\u{202f}' || c == '\u{205f}' || c == '\u{3000}'
}

/// The text without the white space at its start.
pub open spec fn trim_start(s: Seq<char>) -> Seq<char>
    decreases s.len(),
{
    if s.len() > 0 && is_space(s[0]) {
        trim_start(s.skip(1))
    } else {
        s
    }
}

/// The text without the white space at its end.
pub open spec fn trim_end(s: Seq<char>) -> Seq<char>
    decreases s.len(),
{
    if s.len() > 0 && is_space(s.last()) {
        trim_end(s.drop_last())
    } else {
        s
    }
}

/// The text without the white space around it.
pub open spec fn trimmed(s: Seq<char>) -> Seq<char> {
    trim_end(trim_start(s))
}

/// Whether a text is nothing but white space.
pub open spec fn is_blank(s: Seq<char>) -> bool {
    forall|i: int| 0 <= i < s.len() ==> is_space(#[trigger] s[i])
}

proof fn lemma_trim_start(before: Seq<char>, s: Seq<char>)
    requires
        is_blank(before),
        s.len() > 0,
        !is_space(s[0]),
    ensures
        trim_start(before + s) == s,
    decreases before.len(),
{
    let t = before + s;
    if before.len() > 0 {
        assert(is_space(before[0]));
        assert(t.skip(1) =~= before.skip(1) + s);
        lemma_trim_start(before.skip(1), s);
    } else {
        assert(t =~= s);
    }
}

proof fn lemma_trim_end(s: Seq<char>, after: Seq<char>)
    requires
        is_blank(after),
        s.len() > 0,
        !is_space(s.last()),
    ensures
        trim_end(s + after) == s,
    decreases after.len(),
{
    let t = s + after;
    if after.len() > 0 {
        assert(is_space(after[after.len() - 1]));
        assert(t.drop_last() =~= s + after.drop_last());
        lemma_trim_end(s, after.drop_last());
    } else {
        assert(t =~= s);
    }
}

/// White space around a text is all that is trimmed off it.
pub proof fn law_trimming_keeps_the_text(before: Seq<char>, s: Seq<char>, after: Seq<char>)
    requires
        is_blank(before),
        is_blank(after),
        s.len() > 0,
        !is_space(s[0]),
        !is_space(s.last()),
    ensures
        trimmed(before + s + after) == s,
{
    assert(before + s + after =~= before + (s + after));
    lemma_trim_start(before, s + after);
    lemma_trim_end(s, after);
}

/// The text without the white space around it.
pub fn trim(s: &str) -> (r: Vec<char>)
    ensures
        r@ == trimmed(s@),
{
    let c = chars_of(s);
    let size: usize = c.len();
    let mut start: usize = 0;
    assert(c@.skip(0) =~= c@);
    while start < size && is_white_space(c[start])
        invariant
            start <= size,
            size == c@.len(),
            c@ == s@,
            trim_start(s@) == trim_start(c@.skip(start as int)),
        decreases size - start,
    {
        assert(c@.skip(start as int).skip(1) =~= c@.skip(start + 1));
        start = start + 1;
    }
    let ghost from = c@.skip(start as int);
    let mut end: usize = size;
    assert(from =~= c@.subrange(start as int, end as int));
    while start < end && is_white_space(c[end - 1])
        invariant
            start <= end <= size,
            size == c@.len(),
            trim_end(from) == trim_end(c@.subrange(start as int, end as int)),
        decreases end,
    {
        assert(c@.subrange(start as int, end as int).drop_last() =~= c@.subrange(
            start as int,
            end - 1,
        ));
        end = end - 1;
    }
    copy_of(&c, start, end)
}

/// Part of a sequence of characters.
fn copy_of(c: &Vec<char>, start: usize, end: usize) -> (r: Vec<char>)
    requires
        start <= end <= c@.len(),
    ensures
        r@ == c@.subrange(start as int, end as int),
{
    let mut r: Vec<char> = Vec::new();
    let mut i: usize = start;
    while i < end
        invariant
            start <= i <= end,
            end <= c@.len(),
            r@ == c@.subrange(start as int, i as int),
        decreases end - i,
    {
        r.push(c[i]);
        i = i + 1;
        assert(r@ =~= c@.subrange(start as int, i as int));
    }
    r
}

/// Number of characters before the first white space.
pub open spec fn word_len(s: Seq<char>) -> nat
    decreases s.len(),
{
    if s.len() == 0 || is_space(s[0]) {
        0
    } else {
        1 + word_len(s.skip(1))
    }
}

proof fn lemma_word_len(s: Seq<char>)
    ensures
        word_len(s) <= s.len(),
        s.len() > 0 && !is_space(s[0]) ==> word_len(s) > 0,
        forall|i: int| 0 <= i < word_len(s) ==> !is_space(#[trigger] s[i]),
        word_len(s) < s.len() ==> is_space(s[word_len(s) as int]),
    decreases s.len(),
{
    if s.len() > 0 && !is_space(s[0]) {
        let t = s.skip(1);
        lemma_word_len(t);
        assert forall|i: int| 0 <= i < word_len(s) implies !is_space(#[trigger] s[i]) by {
            if i > 0 {
                assert(s[i] == t[i - 1]);
            }
        }
        if word_len(s) < s.len() {
            assert(s[word_len(s) as int] == t[word_len(t) as int]);
        }
    }
}

proof fn lemma_trim_start_len(s: Seq<char>)
    ensures
        trim_start(s).len() <= s.len(),
        trim_start(s).len() > 0 ==> !is_space(trim_start(s)[0]),
    decreases s.len(),
{
    if s.len() > 0 && is_space(s[0]) {
        lemma_trim_start_len(s.skip(1));
    }
}

/// The words of a text, separated by white space.
pub open spec fn words(s: Seq<char>) -> Seq<Seq<char>>
    decreases s.len(),
    via words_decreases
{
    let t = trim_start(s);
    if t.len() == 0 {
        Seq::empty()
    } else {
        seq![t.take(word_len(t) as int)] + words(t.skip(word_len(t) as int))
    }
}

#[via_fn]
proof fn words_decreases(s: Seq<char>) {
    let t = trim_start(s);
    lemma_trim_start_len(s);
    lemma_word_len(t);
}

/// The texts in a vector.
pub open spec fn texts(v: Seq<String>) -> Seq<Seq<char>> {
    Seq::new(v.len(), |i: int| v[i]@)
}

/// The words of a text, separated by white space.
pub fn split_whitespace(s: &str) -> (r: Vec<String>)
    ensures
        texts(r@) == words(s@),
{
    let c = chars_of(s);
    let size: usize = c.len();
    let mut r: Vec<String> = Vec::new();
    let mut at: usize = 0;
    assert(c@.skip(0) =~= c@);
    assert(texts(r@) + words(c@.skip(0)) =~= words(s@));
    while at < size
        invariant
            at <= size,
            size == c@.len(),
            c@ == s@,
            texts(r@) + words(c@.skip(at as int)) == words(s@),
        decreases size - at,
    {
        let ghost rest = c@.skip(at as int);
        if is_white_space(c[at]) {
            assert(rest.skip(1) =~= c@.skip(at + 1));
            assert(words(rest) == words(c@.skip(at + 1)));
            at = at + 1;
        } else {
            proof {
                lemma_word_len(rest);
            }
            let start: usize = at;
            while at < size && !is_white_space(c[at])
                invariant
                    start <= at <= size,
                    size == c@.len(),
                    rest == c@.skip(start as int),
                    forall|i: int| 0 <= i < word_len(rest) ==> !is_space(#[trigger] rest[i]),
                    word_len(rest) <= rest.len(),
                    word_len(rest) < rest.len() ==> is_space(rest[word_len(rest) as int]),
                    at - start <= word_len(rest),
                decreases size - at,
            {
                assert(rest[at - start] == c@[at as int]);
                at = at + 1;
            }
            assert(at - start == word_len(rest)) by {
                if at - start < word_len(rest) {
                    assert(rest[at - start] == c@[at as int]);
                }
            }
            let word = copy_of(&c, start, at);
            assert(word@ =~= rest.take(word_len(rest) as int));
            assert(rest.skip(word_len(rest) as int) =~= c@.skip(at as int));
            let ghost before = texts(r@);
            r.push(string_of(word.as_slice()));
            assert(texts(r@) =~= before.push(word@));
            assert(texts(r@) + words(c@.skip(at as int)) =~= before + words(rest));
        }
    }
    assert(c@.skip(at as int) =~= Seq::empty());
    assert(texts(r@) =~= words(s@));
    r
}

/// Position of the first `c`, or the length where there is none.
pub open spec fn first_index(s: Seq<char>, c: char) -> nat
    decreases s.len(),
{
    if s.len() == 0 || s[0] == c {
        0
    } else {
        1 + first_index(s.skip(1), c)
    }
}

proof fn lemma_first_index(s: Seq<char>, c: char)
    ensures
        first_index(s, c) <= s.len(),
        forall|i: int| 0 <= i < first_index(s, c) ==> #[trigger] s[i] != c,
        first_index(s, c) < s.len() ==> s[first_index(s, c) as int] == c,
    decreases s.len(),
{
    if s.len() > 0 && s[0] != c {
        let t = s.skip(1);
        lemma_first_index(t, c);
        assert forall|i: int| 0 <= i < first_index(s, c) implies #[trigger] s[i] != c by {
            if i > 0 {
                assert(s[i] == t[i - 1]);
            }
        }
        if first_index(s, c) < s.len() {
            assert(s[first_index(s, c) as int] == t[first_index(t, c) as int]);
        }
    }
}

/// The parts of a text between the occurrences of `c`.
pub open spec fn parts(s: Seq<char>, c: char) -> Seq<Seq<char>>
    decreases s.len(),
    via parts_decreases
{
    let i = first_index(s, c);
    if i < s.len() {
        seq![s.take(i as int)] + parts(s.skip(i as int + 1), c)
    } else {
        seq![s]
    }
}

#[via_fn]
proof fn parts_decreases(s: Seq<char>, c: char) {
    lemma_first_index(s, c);
}

/// The sequences in a vector of vectors.
pub open spec fn pieces(v: Seq<Vec<char>>) -> Seq<Seq<char>> {
    Seq::new(v.len(), |i: int| v[i]@)
}

/// The parts of a text between the occurrences of `c`; at least one.
pub fn split_char(s: &str, c: char) -> (r: Vec<Vec<char>>)
    ensures
        pieces(r@) == parts(s@, c),
{
    let chars = chars_of(s);
    let size: usize = chars.len();
    let mut r: Vec<Vec<char>> = Vec::new();
    let mut start: usize = 0;
    let mut at: usize = 0;
    assert(chars@.skip(0) =~= chars@);
    assert(pieces(r@) + parts(chars@.skip(0), c) =~= parts(s@, c));
    while at < size
        invariant
            start <= at <= size,
            size == chars@.len(),
            chars@ == s@,
            forall|i: int| start <= i < at ==> #[trigger] chars@[i] != c,
            pieces(r@) + parts(chars@.skip(start as int), c) == parts(s@, c),
        decreases size - at,
    {
        if chars[at] == c {
            let ghost rest = chars@.skip(start as int);
            proof {
                lemma_first_index(rest, c);
                let i = first_index(rest, c) as int;
                assert(rest[at - start] == c);
                if i < at - start {
                    assert(chars@[start + i] == rest[i]);
                }
                assert(rest.skip(i + 1) =~= chars@.skip(at + 1));
            }
            let piece = copy_of(&chars, start, at);
            assert(piece@ =~= rest.take(at - start));
            let ghost before = pieces(r@);
            r.push(piece);
            assert(pieces(r@) =~= before.push(piece@));
            start = at + 1;
            assert(pieces(r@) + parts(chars@.skip(start as int), c) =~= before + parts(rest, c));
        }
        at = at + 1;
    }
    let ghost rest = chars@.skip(start as int);
    proof {
        lemma_first_index(rest, c);
        if first_index(rest, c) < rest.len() {
            assert(chars@[start + first_index(rest, c)] == c);
        }
    }
    let piece = copy_of(&chars, start, size);
    assert(piece@ =~= rest);
    let ghost before = pieces(r@);
    r.push(piece);
    assert(pieces(r@) =~= before + parts(rest, c));
    r
}

/// Whether a text has no white space in it.
pub open spec fn is_word(s: Seq<char>) -> bool {
    s.len() > 0 && forall|i: int| 0 <= i < s.len() ==> !is_space(#[trigger] s[i])
}

proof fn lemma_word_len_of(w: Seq<char>, rest: Seq<char>)
    requires
        forall|i: int| 0 <= i < w.len() ==> !is_space(#[trigger] w[i]),
        rest.len() == 0 || is_space(rest[0]),
    ensures
        word_len(w + rest) == w.len(),
    decreases w.len(),
{
    let s = w + rest;
    if w.len() > 0 {
        assert(s[0] == w[0]);
        assert(s.skip(1) =~= w.skip(1) + rest);
        lemma_word_len_of(w.skip(1), rest);
    } else {
        assert(s =~= rest);
    }
}

/// White space parts words and is no part of them: a word with white space behind
/// it, or nothing, comes first among the words of a text, and white space in front
/// of a text changes nothing.
pub proof fn law_words_are_parted_by_white_space(w: Seq<char>, space: char, rest: Seq<char>)
    requires
        is_space(space),
    ensures
        words(Seq::empty()) == Seq::<Seq<char>>::empty(),
        words(seq![space] + rest) == words(rest),
        is_word(w) ==> words(w) == seq![w],
        is_word(w) ==> words(w + seq![space] + rest) == seq![w] + words(rest),
{
    let t = seq![space] + rest;
    assert(t.skip(1) =~= rest);
    assert(words(t) == words(rest));
    if is_word(w) {
        assert(!is_space(w[0]));
        lemma_word_len_of(w, Seq::empty());
        assert(w + Seq::<char>::empty() =~= w);
        assert(w.take(w.len() as int) =~= w);
        assert(w.skip(w.len() as int) =~= Seq::<char>::empty());
        assert(words(Seq::<char>::empty()) =~= Seq::<Seq<char>>::empty());
        assert(words(w) =~= seq![w]);
        let s = w + t;
        assert(w + seq![space] + rest =~= s);
        lemma_word_len_of(w, t);
        assert(s[0] == w[0]);
        assert(s.take(w.len() as int) =~= w);
        assert(s.skip(w.len() as int) =~= t);
    }
}

/// A text is split where the character is and nowhere else: what stands before the
/// first one is the first part, and the rest is split in turn.
pub proof fn law_parts_are_parted_by_the_character(a: Seq<char>, c: char, rest: Seq<char>)
    requires
        forall|i: int| 0 <= i < a.len() ==> #[trigger] a[i] != c,
    ensures
        parts(a, c) == seq![a],
        parts(a + seq![c] + rest, c) == seq![a] + parts(rest, c),
{
    lemma_first_index_of(a, c, Seq::empty());
    assert(a + Seq::<char>::empty() =~= a);
    let t = seq![c] + rest;
    let s = a + t;
    assert(a + seq![c] + rest =~= s);
    lemma_first_index_of(a, c, t);
    assert(s.take(a.len() as int) =~= a);
    assert(s.skip(a.len() as int + 1) =~= rest);
}

proof fn lemma_first_index_of(a: Seq<char>, c: char, rest: Seq<char>)
    requires
        forall|i: int| 0 <= i < a.len() ==> #[trigger] a[i] != c,
        rest.len() == 0 || rest[0] == c,
    ensures
        first_index(a + rest, c) == a.len(),
    decreases a.len(),
{
    let s = a + rest;
    if a.len() > 0 {
        assert(s[0] == a[0]);
        assert(s.skip(1) =~= a.skip(1) + rest);
        lemma_first_index_of(a.skip(1), c, rest);
    } else {
        assert(s =~= rest);
    }
}

/// A text occurs wherever it stands between others.
pub proof fn lemma_occurs_between(before: Seq<char>, s: Seq<char>, after: Seq<char>)
    ensures
        occurs(before + s + after, s),
{
    let t = before + s + after;
    let n = before.len() as int;
    assert(t.subrange(n, n + s.len()) =~= s);
    assert(occurs_at(t, s, n));
}

/// What occurs in one of two texts occurs in both of them with something between.
pub proof fn lemma_occurs_in_either(s: Seq<char>, gap: Seq<char>, t: Seq<char>, needle: Seq<char>)
    requires
        occurs(s, needle) || occurs(t, needle),
    ensures
        occurs(s + gap + t, needle),
{
    let all = s + gap + t;
    if occurs(s, needle) {
        let at = choose|at: int| occurs_at(s, needle, at);
        assert(all.subrange(at, at + needle.len()) =~= s.subrange(at, at + needle.len()));
        assert(occurs_at(all, needle, at));
    } else {
        let at = choose|at: int| occurs_at(t, needle, at);
        let n = s.len() + gap.len() + at;
        assert(all.subrange(n, n + needle.len()) =~= t.subrange(at, at + needle.len()));
        assert(occurs_at(all, needle, n));
    }
}

/// What is white space: tab to carriage return, the space, and the other spaces
/// and line ends of Unicode; no letter, digit or sign that can be seen.
pub proof fn law_what_is_white_space(c: char)
    ensures
        c == ' ' || c == '\t' || c == '\n' || c == '\r' ==> is_space(c),
        '!' <= c <= '~' ==> !is_space(c),
        c < '\t' ==> !is_space(c),
        c == '\u{a0}' || c == '\u{2003}' || c == '\u{3000}' ==> is_space(c),
{
}

/// Nothing is left of a text that is nothing but white space.
pub proof fn law_blank_text_is_trimmed_away(s: Seq<char>)
    requires
        is_blank(s),
    ensures
        trimmed(s) == Seq::<char>::empty(),
    decreases s.len(),
{
    if s.len() > 0 {
        assert(is_space(s[0]));
        assert forall|i: int| 0 <= i < s.skip(1).len() implies is_space(
            #[trigger] s.skip(1)[i],
        ) by {
            assert(is_space(s[i + 1]));
        }
        law_blank_text_is_trimmed_away(s.skip(1));
    } else {
        assert(trim_start(s) =~= Seq::<char>::empty());
    }
}

} // verus!
