//! Text handling on sequences of characters: trimming, splitting into words
//! and lines, searching, and building strings.
//!
//! Strings are taken apart as slices of characters, so that every function
//! here is stated and proved over plain `Seq<char>` values.
use vstd::prelude::*;
use vstd::slice::slice_subrange;

verus! {

/// `String::push` of std appends one character at the end of the string.
pub assume_specification[ String::push ](s: &mut String, c: char)
    ensures
        final(s)@ == old(s)@.push(c),
;

/// The characters with the Unicode property White_Space.
pub open spec fn is_white(c: char) -> bool {
    ||| '\u{9}' <= c <= '\u{d}'
    ||| c == ' ' || c == '\u{85}' || c == '\u{a0}' || c == '\u{1680}'
    ||| '\u{2000}' <= c <= '\u{200a}'
    ||| c == '\u{2028}' || c == '\u{2029}' || c == '\u{202f}' || c == '\u{205f}' || c == '\u{3000}'
}

/// How many characters at the front of `s` are white space.
pub open spec fn gap_len(s: Seq<char>) -> nat
    decreases s.len(),
{
    if s.len() == 0 || !is_white(s[0]) {
        0
    } else {
        1 + gap_len(s.drop_first())
    }
}

/// How many characters at the front of `s` come before the first white space.
pub open spec fn word_len(s: Seq<char>) -> nat
    decreases s.len(),
{
    if s.len() == 0 || is_white(s[0]) {
        0
    } else {
        1 + word_len(s.drop_first())
    }
}

/// How many characters at the front of `s` come before the first `c`.
pub open spec fn until(s: Seq<char>, c: char) -> nat
    decreases s.len(),
{
    if s.len() == 0 || s[0] == c {
        0
    } else {
        1 + until(s.drop_first(), c)
    }
}

/// `s` without the white space at its front.
pub open spec fn trimmed_start(s: Seq<char>) -> Seq<char> {
    s.skip(gap_len(s) as int)
}

/// `s` without the white space at its end.
pub open spec fn trimmed_end(s: Seq<char>) -> Seq<char>
    decreases s.len(),
{
    if s.len() == 0 || !is_white(s.last()) {
        s
    } else {
        trimmed_end(s.drop_last())
    }
}

/// `s` without the white space at either end.
pub open spec fn trimmed(s: Seq<char>) -> Seq<char> {
    trimmed_end(trimmed_start(s))
}

/// `s` without the run of `c` at its end.
pub open spec fn trimmed_end_of(s: Seq<char>, c: char) -> Seq<char>
    decreases s.len(),
{
    if s.len() == 0 || s.last() != c {
        s
    } else {
        trimmed_end_of(s.drop_last(), c)
    }
}

/// The maximal runs of characters of `s` that are not white space, in order.
pub open spec fn words_of(s: Seq<char>) -> Seq<Seq<char>>
    decreases s.len(),
{
    let t = trimmed_start(s);
    if t.len() == 0 {
        Seq::empty()
    } else {
        proof {
            lemma_gap_len(s);
            lemma_word_len(t);
        }
        seq![t.take(word_len(t) as int)] + words_of(t.skip(word_len(t) as int))
    }
}

/// `s` without one carriage return at its end.
pub open spec fn without_return(s: Seq<char>) -> Seq<char> {
    if s.len() > 0 && s.last() == '\r' {
        s.drop_last()
    } else {
        s
    }
}

/// The lines of `s`: each ends at a line feed, or at a carriage return and a
/// line feed; the ending of the last line may be missing.
pub open spec fn lines_of(s: Seq<char>) -> Seq<Seq<char>>
    decreases s.len(),
{
    if s.len() == 0 {
        Seq::empty()
    } else {
        let n = until(s, '\n');
        if n >= s.len() {
            seq![s]
        } else {
            seq![without_return(s.take(n as int))] + lines_of(s.skip(n as int + 1))
        }
    }
}

/// The parts of `s` between the occurrences of `c`.
pub open spec fn parts_of(s: Seq<char>, c: char) -> Seq<Seq<char>>
    decreases s.len(),
{
    let n = until(s, c);
    if n >= s.len() {
        seq![s]
    } else {
        seq![s.take(n as int)] + parts_of(s.skip(n as int + 1), c)
    }
}

/// What comes before the last `c` in `s`, all of `s` where there is none.
pub open spec fn before_last(s: Seq<char>, c: char) -> Seq<char> {
    if s.contains(c) {
        cut_at_last(s, c)
    } else {
        s
    }
}

/// `s` without its last `c` and what comes after it.
pub open spec fn cut_at_last(s: Seq<char>, c: char) -> Seq<char>
    decreases s.len(),
{
    if s.len() == 0 {
        s
    } else if s.last() == c {
        s.drop_last()
    } else {
        cut_at_last(s.drop_last(), c)
    }
}

/// `s` with each occurrence of a text that is not empty replaced, from the
/// front.
pub open spec fn replaced(s: Seq<char>, from: Seq<char>, to: Seq<char>) -> Seq<char>
    decreases s.len(),
{
    if s.len() == 0 || from.len() == 0 {
        s
    } else if begins_with(s, from) {
        to + replaced(s.skip(from.len() as int), from, to)
    } else {
        seq![s[0]] + replaced(s.drop_first(), from, to)
    }
}

/// Whether `part` occurs in `s`.
pub open spec fn contains_text(s: Seq<char>, part: Seq<char>) -> bool {
    exists|i: int| occurs_at(s, part, i)
}

/// Whether `part` occurs in `s` at position `i`.
pub open spec fn occurs_at(s: Seq<char>, part: Seq<char>, i: int) -> bool {
    0 <= i && i + part.len() <= s.len() && s.subrange(i, i + part.len()) == part
}

/// Whether `s` begins with `part`.
pub open spec fn begins_with(s: Seq<char>, part: Seq<char>) -> bool {
    occurs_at(s, part, 0)
}

/// Whether `s` ends with `part`.
pub open spec fn finishes_with(s: Seq<char>, part: Seq<char>) -> bool {
    occurs_at(s, part, s.len() - part.len())
}

/// The lower-case form of an ASCII letter; any other character is itself.
pub open spec fn lower(c: char) -> char {
    if 'A' <= c <= 'Z' {
        (c as u32 + 32) as char
    } else {
        c
    }
}

/// `s` with each ASCII letter in lower case.
pub open spec fn lowered(s: Seq<char>) -> Seq<char> {
    s.map_values(|c: char| lower(c))
}

/// A truth value as a word.
pub open spec fn truth(b: bool) -> Seq<char> {
    if b {
        "true"@
    } else {
        "false"@
    }
}

/// The texts that a sequence of strings holds.
pub open spec fn texts(s: Seq<String>) -> Seq<Seq<char>> {
    s.map_values(|t: String| t@)
}

/// The text that an optional string holds.
pub open spec fn opt_text(o: Option<String>) -> Option<Seq<char>> {
    match o {
        Some(s) => Some(s@),
        None => None,
    }
}

/// The text that an optional borrowed string holds.
pub open spec fn opt_str(o: Option<&str>) -> Option<Seq<char>> {
    match o {
        Some(s) => Some(s@),
        None => None,
    }
}

/// The texts that a sequence of pairs of strings holds.
pub open spec fn pairs(s: Seq<(String, String)>) -> Seq<(Seq<char>, Seq<char>)> {
    s.map_values(|p: (String, String)| (p.0@, p.1@))
}

/// The texts that a sequence of character vectors holds.
pub open spec fn rows(s: Seq<Vec<char>>) -> Seq<Seq<char>> {
    s.map_values(|t: Vec<char>| t@)
}

/// `n` spaces.
pub open spec fn spaces(n: nat) -> Seq<char> {
    Seq::new(n, |i: int| ' ')
}

/// `s` followed by as many spaces as make it `width` characters long.
pub open spec fn padded_right(s: Seq<char>, width: nat) -> Seq<char> {
    if s.len() < width {
        s + spaces((width - s.len()) as nat)
    } else {
        s
    }
}

/// `s` preceded by as many spaces as make it `width` characters long.
pub open spec fn padded_left(s: Seq<char>, width: nat) -> Seq<char> {
    if s.len() < width {
        spaces((width - s.len()) as nat) + s
    } else {
        s
    }
}

pub proof fn lemma_gap_len(s: Seq<char>)
    ensures
        gap_len(s) <= s.len(),
        forall|i: int| 0 <= i < gap_len(s) ==> is_white(#[trigger] s[i]),
        gap_len(s) < s.len() ==> !is_white(s[gap_len(s) as int]),
    decreases s.len(),
{
    if s.len() > 0 && is_white(s[0]) {
        let t = s.drop_first();
        lemma_gap_len(t);
        assert forall|i: int| 0 <= i < gap_len(s) implies is_white(#[trigger] s[i]) by {
            if i > 0 {
                assert(s[i] == t[i - 1]);
            }
        }
        assert(gap_len(s) < s.len() ==> s[gap_len(s) as int] == t[gap_len(t) as int]);
    }
}

pub proof fn lemma_word_len(s: Seq<char>)
    ensures
        word_len(s) <= s.len(),
        s.len() > 0 && !is_white(s[0]) ==> word_len(s) > 0,
        forall|i: int| 0 <= i < word_len(s) ==> !is_white(#[trigger] s[i]),
        word_len(s) < s.len() ==> is_white(s[word_len(s) as int]),
    decreases s.len(),
{
    if s.len() > 0 && !is_white(s[0]) {
        let t = s.drop_first();
        lemma_word_len(t);
        assert forall|i: int| 0 <= i < word_len(s) implies !is_white(#[trigger] s[i]) by {
            if i > 0 {
                assert(s[i] == t[i - 1]);
            }
        }
        assert(word_len(s) < s.len() ==> s[word_len(s) as int] == t[word_len(t) as int]);
    }
}

pub proof fn lemma_until(s: Seq<char>, c: char)
    ensures
        until(s, c) <= s.len(),
        forall|i: int| 0 <= i < until(s, c) ==> #[trigger] s[i] != c,
        until(s, c) < s.len() ==> s[until(s, c) as int] == c,
    decreases s.len(),
{
    if s.len() > 0 && s[0] != c {
        let t = s.drop_first();
        lemma_until(t, c);
        assert forall|i: int| 0 <= i < until(s, c) implies #[trigger] s[i] != c by {
            if i > 0 {
                assert(s[i] == t[i - 1]);
            }
        }
        assert(until(s, c) < s.len() ==> s[until(s, c) as int] == t[until(t, c) as int]);
    }
}

/// Whether `s` is a single word.
pub open spec fn is_word(s: Seq<char>) -> bool {
    s.len() > 0 && forall|i: int| 0 <= i < s.len() ==> !is_white(#[trigger] s[i])
}

/// A word and what comes after it splits into the word and the words of the
/// rest.
pub proof fn lemma_first_word(w: Seq<char>, rest: Seq<char>)
    requires
        is_word(w),
        rest.len() > 0 ==> is_white(rest[0]),
    ensures
        words_of(w + rest) == seq![w] + words_of(rest),
{
    let s = w + rest;
    assert(s[0] == w[0]);
    assert(trimmed_start(s) =~= s);
    lemma_word_len(s);
    let n = word_len(s) as int;
    if n < w.len() {
        assert(s[n] == w[n]);
    }
    if n > w.len() {
        assert(s[w.len() as int] == rest[0]);
    }
    assert(s.take(n) =~= w);
    assert(s.skip(n) =~= rest);
}

/// White space in front of a text does not change its words.
pub proof fn lemma_leading_gap(c: char, s: Seq<char>)
    requires
        is_white(c),
    ensures
        words_of(seq![c] + s) == words_of(s),
{
    let t = seq![c] + s;
    assert(t.drop_first() =~= s);
    lemma_gap_len(s);
    assert(trimmed_start(t) =~= trimmed_start(s));
}

/// The characters of a string.
pub fn chars(s: &str) -> (v: Vec<char>)
    ensures
        v@ == s@,
{
    let mut v: Vec<char> = Vec::new();
    for c in it: s.chars()
        invariant
            it.seq() == s@,
            v@ == s@.take(it.index()),
    {
        v.push(c);
    }
    assert(s@.take(s@.len() as int) == s@);
    v
}

/// The string of the given characters.
pub fn from_chars(v: &[char]) -> (s: String)
    ensures
        s@ == v@,
{
    let mut s = String::new();
    for i in 0..v.len()
        invariant
            s@ == v@.take(i as int),
    {
        s.push(v[i]);
    }
    assert(v@.take(v@.len() as int) == v@);
    s
}

/// Whether two character sequences are equal.
pub fn same_chars(a: &[char], b: &[char]) -> (r: bool)
    ensures
        r == (a@ == b@),
{
    if a.len() != b.len() {
        return false;
    }
    for i in 0..a.len()
        invariant
            a@.len() == b@.len(),
            forall|j: int| 0 <= j < i ==> a@[j] == b@[j],
    {
        if a[i] != b[i] {
            assert(a@[i as int] != b@[i as int]);
            return false;
        }
    }
    assert(a@ =~= b@);
    true
}

/// Whether two strings hold the same text.
pub fn same(a: &str, b: &str) -> (r: bool)
    ensures
        r == (a@ == b@),
{
    let x = chars(a);
    let y = chars(b);
    same_chars(x.as_slice(), y.as_slice())
}

/// Whether a list of strings holds the given text.
pub fn holds(list: &Vec<String>, text: &str) -> (r: bool)
    ensures
        r == texts(list@).contains(text@),
{
    for i in 0..list.len()
        invariant
            forall|j: int| 0 <= j < i ==> list@[j]@ != text@,
    {
        if same(list[i].as_str(), text) {
            assert(texts(list@)[i as int] == text@);
            return true;
        }
    }
    assert forall|j: int| 0 <= j < texts(list@).len() implies texts(list@)[j] != text@ by {}
    false
}

/// Whether a character is white space.
pub fn white(c: char) -> (r: bool)
    ensures
        r == is_white(c),
{
    ('\u{9}' <= c && c <= '\u{d}') || c == ' ' || c == '\u{85}' || c == '\u{a0}' || c == '\u{1680}'
        || ('\u{2000}' <= c && c <= '\u{200a}') || c == '\u{2028}' || c == '\u{2029}'
        || c == '\u{202f}' || c == '\u{205f}' || c == '\u{3000}'
}

fn gap(s: &[char]) -> (n: usize)
    ensures
        n == gap_len(s@),
{
    let mut i: usize = 0;
    assert(s@.skip(0) == s@);
    while i < s.len() && white(s[i])
        invariant
            i <= s@.len(),
            gap_len(s@) == i + gap_len(s@.skip(i as int)),
        decreases s@.len() - i,
    {
        assert(s@.skip(i as int).drop_first() == s@.skip(i + 1));
        i += 1;
    }
    i
}

fn word(s: &[char]) -> (n: usize)
    ensures
        n == word_len(s@),
{
    let mut i: usize = 0;
    assert(s@.skip(0) == s@);
    while i < s.len() && !white(s[i])
        invariant
            i <= s@.len(),
            word_len(s@) == i + word_len(s@.skip(i as int)),
        decreases s@.len() - i,
    {
        assert(s@.skip(i as int).drop_first() == s@.skip(i + 1));
        i += 1;
    }
    i
}

/// The position of the first `c`, or the length where there is none.
pub fn find(s: &[char], c: char) -> (n: usize)
    ensures
        n == until(s@, c),
        n <= s@.len(),
{
    let mut i: usize = 0;
    assert(s@.skip(0) == s@);
    while i < s.len() && s[i] != c
        invariant
            i <= s@.len(),
            until(s@, c) == i + until(s@.skip(i as int), c),
        decreases s@.len() - i,
    {
        assert(s@.skip(i as int).drop_first() == s@.skip(i + 1));
        i += 1;
    }
    i
}

/// Drops the white space at the front.
pub fn trim_start(s: &[char]) -> (r: &[char])
    ensures
        r@ == trimmed_start(s@),
{
    let n = gap(s);
    proof {
        lemma_gap_len(s@);
    }
    slice_subrange(s, n, s.len())
}

/// Drops the white space at the end.
pub fn trim_end(s: &[char]) -> (r: &[char])
    ensures
        r@ == trimmed_end(s@),
{
    let mut n: usize = s.len();
    assert(s@.take(s@.len() as int) == s@);
    while n > 0 && white(s[n - 1])
        invariant
            n <= s@.len(),
            trimmed_end(s@) == trimmed_end(s@.take(n as int)),
        decreases n,
    {
        assert(s@.take(n as int).drop_last() == s@.take(n - 1));
        n -= 1;
    }
    slice_subrange(s, 0, n)
}

/// Drops the run of `c` at the end.
pub fn trim_end_of(s: &[char], c: char) -> (r: &[char])
    ensures
        r@ == trimmed_end_of(s@, c),
{
    let mut n: usize = s.len();
    assert(s@.take(s@.len() as int) == s@);
    while n > 0 && s[n - 1] == c
        invariant
            n <= s@.len(),
            trimmed_end_of(s@, c) == trimmed_end_of(s@.take(n as int), c),
        decreases n,
    {
        assert(s@.take(n as int).drop_last() == s@.take(n - 1));
        n -= 1;
    }
    slice_subrange(s, 0, n)
}

/// Drops the white space at both ends.
pub fn trim(s: &[char]) -> (r: &[char])
    ensures
        r@ == trimmed(s@),
{
    trim_end(trim_start(s))
}

/// A copy of a slice of characters.
pub fn copied(s: &[char]) -> (r: Vec<char>)
    ensures
        r@ == s@,
{
    let mut r: Vec<char> = Vec::new();
    for i in 0..s.len()
        invariant
            r@ == s@.take(i as int),
    {
        r.push(s[i]);
    }
    assert(s@.take(s@.len() as int) == s@);
    r
}

/// Splits at white space.
pub fn words(s: &[char]) -> (r: Vec<Vec<char>>)
    ensures
        rows(r@) == words_of(s@),
{
    let mut r: Vec<Vec<char>> = Vec::new();
    let mut rest: &[char] = s;
    assert(rows(r@) + words_of(rest@) == words_of(s@));
    loop
        invariant
            rows(r@) + words_of(rest@) == words_of(s@),
        ensures
            rows(r@) == words_of(s@),
        decreases rest@.len(),
    {
        let t = trim_start(rest);
        proof {
            lemma_gap_len(rest@);
            lemma_word_len(t@);
        }
        if t.len() == 0 {
            assert(rows(r@) + Seq::<Seq<char>>::empty() == rows(r@));
            break ;
        }
        let n = word(t);
        let ghost before = rows(r@);
        r.push(copied(slice_subrange(t, 0, n)));
        assert(rows(r@) == before.push(t@.take(n as int)));
        let next = slice_subrange(t, n, t.len());
        assert(next@ == t@.skip(n as int));
        assert(before + (seq![t@.take(n as int)] + words_of(next@)) == rows(r@) + words_of(next@));
        rest = next;
    }
    r
}

/// Splits into lines.
pub fn lines(s: &[char]) -> (r: Vec<Vec<char>>)
    ensures
        rows(r@) == lines_of(s@),
{
    let mut r: Vec<Vec<char>> = Vec::new();
    let mut rest: &[char] = s;
    assert(rows(r@) + lines_of(rest@) == lines_of(s@));
    while rest.len() > 0
        invariant
            rows(r@) + lines_of(rest@) == lines_of(s@),
        decreases rest@.len(),
    {
        let n = find(rest, '\n');
        let ghost before = rows(r@);
        if n >= rest.len() {
            r.push(copied(rest));
            assert(rows(r@) == before.push(rest@));
            assert(rows(r@) == before + seq![rest@]);
            return r;
        }
        let line = slice_subrange(rest, 0, n);
        assert(line@ == rest@.take(n as int));
        let mut m: usize = n;
        if n > 0 && rest[n - 1] == '\r' {
            m = n - 1;
        }
        let kept = slice_subrange(rest, 0, m);
        assert(kept@ == without_return(line@));
        r.push(copied(kept));
        assert(rows(r@) == before.push(kept@));
        let next = slice_subrange(rest, n + 1, rest.len());
        assert(next@ == rest@.skip(n + 1));
        assert(before + (seq![kept@] + lines_of(next@)) == rows(r@) + lines_of(next@));
        rest = next;
    }
    assert(lines_of(rest@) == Seq::<Seq<char>>::empty());
    assert(rows(r@) + Seq::<Seq<char>>::empty() == rows(r@));
    r
}

/// Splits at each `c`.
pub fn parts(s: &[char], c: char) -> (r: Vec<Vec<char>>)
    ensures
        rows(r@) == parts_of(s@, c),
{
    let mut r: Vec<Vec<char>> = Vec::new();
    let mut rest: &[char] = s;
    assert(rows(r@) + parts_of(rest@, c) == parts_of(s@, c));
    loop
        invariant_except_break
            rows(r@) + parts_of(rest@, c) == parts_of(s@, c),
        ensures
            rows(r@) == parts_of(s@, c),
        decreases rest@.len(),
    {
        let n = find(rest, c);
        let ghost before = rows(r@);
        if n >= rest.len() {
            r.push(copied(rest));
            assert(rows(r@) =~= before + seq![rest@]);
            break ;
        }
        let part = slice_subrange(rest, 0, n);
        r.push(copied(part));
        assert(rows(r@) =~= before.push(rest@.take(n as int)));
        let next = slice_subrange(rest, n + 1, rest.len());
        assert(next@ == rest@.skip(n + 1));
        assert(before + (seq![part@] + parts_of(next@, c)) =~= rows(r@) + parts_of(next@, c));
        rest = next;
    }
    r
}

/// What comes before the last `c`, everything where there is none.
pub fn up_to_last(s: &[char], c: char) -> (r: &[char])
    ensures
        r@ == before_last(s@, c),
{
    let mut n: usize = s.len();
    assert(s@.take(s@.len() as int) =~= s@);
    while n > 0
        invariant
            n <= s@.len(),
            forall|i: int| n <= i < s@.len() ==> s@[i] != c,
            cut_at_last(s@, c) == cut_at_last(s@.take(n as int), c),
        decreases n,
    {
        assert(s@.take(n as int).drop_last() =~= s@.take(n - 1));
        n -= 1;
        if s[n] == c {
            assert(s@[n as int] == c);
            return slice_subrange(s, 0, n);
        }
    }
    s
}

/// Replaces each occurrence of a text, from the front.
pub fn replace(s: &[char], from: &str, to: &str) -> (r: Vec<char>)
    requires
        from@.len() > 0,
    ensures
        r@ == replaced(s@, from@, to@),
{
    let f = chars(from);
    let t = chars(to);
    let mut r: Vec<char> = Vec::new();
    let mut i: usize = 0;
    assert(s@.skip(0) == s@);
    while i < s.len()
        invariant
            f@ == from@,
            t@ == to@,
            f@.len() > 0,
            i <= s@.len(),
            r@ + replaced(s@.skip(i as int), from@, to@) == replaced(s@, from@, to@),
        decreases s@.len() - i,
    {
        let ghost rest = s@.skip(i as int);
        let ghost before = r@;
        if s.len() - i >= f.len() && occurs(s, f.as_slice(), i) {
            assert(rest.subrange(0, f@.len() as int) =~= s@.subrange(i as int, i + f@.len()));
            for k in 0..t.len()
                invariant
                    r@ == before + t@.take(k as int),
            {
                r.push(t[k]);
                assert(r@ =~= before + t@.take(k + 1));
            }
            assert(t@.take(t@.len() as int) =~= t@);
            assert(rest.skip(f@.len() as int) =~= s@.skip(i + f@.len()));
            i += f.len();
            assert(before + (t@ + replaced(s@.skip(i as int), from@, to@)) =~= r@ + replaced(
                s@.skip(i as int),
                from@,
                to@,
            ));
        } else {
            assert(!begins_with(rest, from@)) by {
                if begins_with(rest, from@) {
                    assert(rest.subrange(0, f@.len() as int) =~= s@.subrange(
                        i as int,
                        i + f@.len(),
                    ));
                }
            }
            r.push(s[i]);
            assert(rest.drop_first() =~= s@.skip(i + 1));
            assert(before + (seq![rest[0]] + replaced(rest.drop_first(), from@, to@)) =~= r@
                + replaced(rest.drop_first(), from@, to@));
            i += 1;
        }
    }
    assert(replaced(s@.skip(s@.len() as int), from@, to@) =~= Seq::empty());
    assert(r@ + Seq::empty() =~= r@);
    r
}

fn occurs(s: &[char], part: &[char], i: usize) -> (r: bool)
    requires
        i + part@.len() <= s@.len(),
    ensures
        r == occurs_at(s@, part@, i as int),
{
    let _len: usize = s.len();
    same_chars(slice_subrange(s, i, i + part.len()), part)
}

/// Whether a text occurs in the characters.
pub fn has(s: &[char], part: &str) -> (r: bool)
    ensures
        r == contains_text(s@, part@),
{
    let p = chars(part);
    if p.len() > s.len() {
        assert forall|i: int| !occurs_at(s@, part@, i) by {}
        return false;
    }
    let last: usize = s.len() - p.len();
    let mut i: usize = 0;
    while i < last
        invariant
            p@ == part@,
            last == s@.len() - p@.len(),
            i <= last,
            forall|j: int| 0 <= j < i ==> !occurs_at(s@, part@, j),
        decreases last - i,
    {
        if occurs(s, p.as_slice(), i) {
            return true;
        }
        i += 1;
    }
    let found = occurs(s, p.as_slice(), last);
    assert(contains_text(s@, part@) ==> found) by {
        assert forall|j: int| occurs_at(s@, part@, j) implies found by {
            assert(j <= last);
        }
    }
    found
}

/// Whether the characters begin with a text.
pub fn starts(s: &[char], part: &str) -> (r: bool)
    ensures
        r == begins_with(s@, part@),
{
    let p = chars(part);
    if p.len() > s.len() {
        return false;
    }
    occurs(s, p.as_slice(), 0)
}

/// Whether the characters end with a text.
pub fn ends(s: &[char], part: &str) -> (r: bool)
    ensures
        r == finishes_with(s@, part@),
{
    let p = chars(part);
    if p.len() > s.len() {
        return false;
    }
    occurs(s, p.as_slice(), s.len() - p.len())
}

fn lower_of(c: char) -> (r: char)
    ensures
        r == lower(c),
{
    if 'A' <= c && c <= 'Z' {
        let code: u8 = (c as u32 + 32) as u8;
        code as char
    } else {
        c
    }
}

/// Puts each ASCII letter in lower case.
pub fn to_lower(s: &[char]) -> (r: Vec<char>)
    ensures
        r@ == lowered(s@),
{
    let mut r: Vec<char> = Vec::new();
    for i in 0..s.len()
        invariant
            r@.len() == i,
            forall|j: int| 0 <= j < i ==> r@[j] == lower(s@[j]),
    {
        r.push(lower_of(s[i]));
    }
    assert(r@ =~= lowered(s@));
    r
}

/// Whether the characters are the given text, not counting the case of ASCII
/// letters.
pub fn same_caseless(s: &[char], text: &str) -> (r: bool)
    ensures
        r == (lowered(s@) == lowered(text@)),
{
    let t = chars(text);
    same_chars(to_lower(s).as_slice(), to_lower(t.as_slice()).as_slice())
}

/// A truth value as a word.
pub fn truth_of(b: bool) -> (r: &'static str)
    ensures
        r@ == truth(b),
{
    if b {
        "true"
    } else {
        "false"
    }
}

/// Appends spaces up to the given width.
pub fn pad_right(s: &str, width: usize) -> (r: String)
    ensures
        r@ == padded_right(s@, width as nat),
{
    let v = chars(s);
    let mut r = s.to_owned();
    let mut n: usize = v.len();
    while n < width
        invariant
            v@ == s@,
            v@.len() <= n,
            n <= width || n == v@.len(),
            r@ == s@ + spaces((n - v@.len()) as nat),
        decreases width - n,
    {
        r.push(' ');
        n += 1;
        assert(s@ + spaces((n - v@.len()) as nat) =~= (s@ + spaces((n - 1 - v@.len()) as nat)).push(
            ' ',
        ));
    }
    assert(s@ + spaces(0) =~= s@);
    r
}

/// Prepends spaces up to the given width.
pub fn pad_left(s: &str, width: usize) -> (r: String)
    ensures
        r@ == padded_left(s@, width as nat),
{
    let v = chars(s);
    let mut r = String::new();
    let mut n: usize = v.len();
    assert(spaces(0) =~= Seq::<char>::empty());
    while n < width
        invariant
            v@ == s@,
            v@.len() <= n,
            n <= width || n == v@.len(),
            r@ == spaces((n - v@.len()) as nat),
        decreases width - n,
    {
        r.push(' ');
        n += 1;
        assert(spaces((n - v@.len()) as nat) =~= spaces((n - 1 - v@.len()) as nat).push(' '));
    }
    r.append(s);
    assert(spaces(0) + s@ =~= s@);
    r
}

/// What is picked from a sequence: every item that something is made of, and nothing
/// else.
pub proof fn lemma_picked<A, B>(s: Seq<A>, f: spec_fn(A) -> Option<B>)
    ensures
        s.filter_map(f).len() <= s.len(),
        forall|i: int|
            0 <= i < s.len() && f(#[trigger] s[i]) is Some ==> s.filter_map(f).contains(
                f(s[i])->0,
            ),
        forall|k: int|
            0 <= k < s.filter_map(f).len() ==> exists|i: int|
                0 <= i < s.len() && f(#[trigger] s[i]) == Some(#[trigger] s.filter_map(f)[k]),
    decreases s.len(),
{
    if s.len() > 0 {
        let rest = s.drop_last();
        let r = rest.filter_map(f);
        let all = s.filter_map(f);
        lemma_picked(rest, f);
        assert(s[s.len() - 1] == s.last());
        assert forall|i: int| 0 <= i < s.len() && f(#[trigger] s[i]) is Some implies all.contains(
            f(s[i])->0,
        ) by {
            if i < rest.len() {
                assert(rest[i] == s[i]);
                let k = choose|k: int| 0 <= k < r.len() && r[k] == f(s[i])->0;
                assert(all[k] == r[k]);
            } else {
                assert(all[all.len() - 1] == f(s[i])->0);
            }
        }
        assert forall|k: int| 0 <= k < all.len() implies exists|i: int|
            0 <= i < s.len() && f(#[trigger] s[i]) == Some(#[trigger] all[k]) by {
            if k < r.len() {
                assert(all[k] == r[k]);
                let i = choose|i: int| 0 <= i < rest.len() && f(#[trigger] rest[i]) == Some(r[k]);
                assert(s[i] == rest[i]);
            } else {
                assert(f(s[s.len() - 1]) == Some(all[k]));
            }
        }
    }
}

proof fn lemma_trimmed_end(s: Seq<char>)
    ensures
        trimmed_end(s).len() <= s.len(),
        trimmed_end(s) == s.take(trimmed_end(s).len() as int),
        forall|i: int| trimmed_end(s).len() <= i < s.len() ==> is_white(#[trigger] s[i]),
        trimmed_end(s).len() > 0 ==> !is_white(trimmed_end(s).last()),
    decreases s.len(),
{
    if s.len() > 0 && is_white(s.last()) {
        let t = s.drop_last();
        lemma_trimmed_end(t);
        let n = trimmed_end(s).len() as int;
        assert(t.take(n) =~= s.take(n));
        assert forall|i: int| n <= i < s.len() implies is_white(#[trigger] s[i]) by {
            if i < t.len() {
                assert(t[i] == s[i]);
            }
        }
    } else {
        assert(s.take(s.len() as int) =~= s);
    }
}

/// Trimming takes white space away at both ends, all of it, and nothing else.
pub proof fn trimming_takes_white_space(s: Seq<char>)
    ensures
        exists|a: int, b: int|
            #![trigger s.subrange(a, b)]
            0 <= a <= b <= s.len() && trimmed(s) == s.subrange(a, b) && (forall|i: int|
                0 <= i < a || b <= i < s.len() ==> is_white(#[trigger] s[i])),
        trimmed(s).len() > 0 ==> !is_white(trimmed(s)[0]) && !is_white(trimmed(s).last()),
{
    lemma_gap_len(s);
    let a = gap_len(s) as int;
    let t = s.skip(a);
    lemma_trimmed_end(t);
    let n = trimmed_end(t).len() as int;
    let b = a + n;
    assert(trimmed(s) =~= s.subrange(a, b));
    assert forall|i: int| 0 <= i < a || b <= i < s.len() implies is_white(#[trigger] s[i]) by {
        if i >= b {
            assert(t[i - a] == s[i]);
        }
    }
    if n > 0 {
        assert(trimmed(s)[0] == t[0]);
        assert(t[0] == s[a]);
    }
}

/// A line and what comes after it splits into the line, without a carriage return at
/// its end, and the lines of the rest.
pub proof fn first_line_is_split_off(line: Seq<char>, rest: Seq<char>)
    requires
        forall|i: int| 0 <= i < line.len() ==> #[trigger] line[i] != '\n',
    ensures
        lines_of(line + seq!['\n'] + rest) == seq![
            if line.len() > 0 && line.last() == '\r' {
                line.drop_last()
            } else {
                line
            },
        ] + lines_of(rest),
        line.len() > 0 ==> lines_of(line) == seq![line],
{
    let s = line + seq!['\n'] + rest;
    lemma_until(s, '\n');
    let n = until(s, '\n') as int;
    assert(s[line.len() as int] == '\n');
    if n < line.len() {
        assert(s[n] == line[n]);
    }
    assert(s.take(n) =~= line);
    assert(s.skip(n + 1) =~= rest);
    lemma_until(line, '\n');
    let m = until(line, '\n') as int;
    if m < line.len() {
        assert(line[m] != '\n');
    }
}

/// A part and what comes after the next separator splits into the part and the parts
/// of the rest.
pub proof fn first_part_is_split_off(part: Seq<char>, rest: Seq<char>, c: char)
    requires
        forall|i: int| 0 <= i < part.len() ==> #[trigger] part[i] != c,
    ensures
        parts_of(part + seq![c] + rest, c) == seq![part] + parts_of(rest, c),
        parts_of(part, c) == seq![part],
{
    let s = part + seq![c] + rest;
    lemma_until(s, c);
    let n = until(s, c) as int;
    assert(s[part.len() as int] == c);
    if n < part.len() {
        assert(s[n] == part[n]);
    }
    assert(s.take(n) =~= part);
    assert(s.skip(n + 1) =~= rest);
    lemma_until(part, c);
    let m = until(part, c) as int;
    if m < part.len() {
        assert(part[m] != c);
    }
}

/// What comes before the last occurrence of a character.
pub proof fn cut_is_at_the_last(front: Seq<char>, back: Seq<char>, c: char)
    requires
        forall|i: int| 0 <= i < back.len() ==> #[trigger] back[i] != c,
    ensures
        before_last(front + seq![c] + back, c) == front,
        before_last(back, c) == back,
    decreases back.len(),
{
    let s = front + seq![c] + back;
    assert(s[front.len() as int] == c);
    if back.len() == 0 {
        assert(s.drop_last() =~= front);
    } else {
        let b = back.drop_last();
        assert forall|i: int| 0 <= i < b.len() implies #[trigger] b[i] != c by {
            assert(b[i] == back[i]);
        }
        assert(s.last() == back[back.len() - 1]);
        cut_is_at_the_last(front, b, c);
        let t = front + seq![c] + b;
        assert(s.drop_last() =~= t);
        assert(t[front.len() as int] == c);
    }
}

/// Padding leaves the text as it is, and fills up with spaces to the width.
pub proof fn padding_fills_up(s: Seq<char>, width: nat)
    ensures
        s.len() >= width ==> padded_right(s, width) == s && padded_left(s, width) == s,
        s.len() < width ==> padded_right(s, width).len() == width && padded_left(s, width).len()
            == width,
        s.len() < width ==> padded_right(s, width).take(s.len() as int) == s && padded_left(
            s,
            width,
        ).skip(width - s.len()) == s,
        s.len() < width ==> forall|i: int|
            s.len() <= i < width ==> #[trigger] padded_right(s, width)[i] == ' ',
        s.len() < width ==> forall|i: int|
            0 <= i < width - s.len() ==> #[trigger] padded_left(s, width)[i] == ' ',
{
    if s.len() < width {
        assert(padded_right(s, width).take(s.len() as int) =~= s);
        assert(padded_left(s, width).skip(width - s.len()) =~= s);
    }
}

/// Lower case changes the capital letters of ASCII, each to the letter thirty-two codes
/// on, and nothing else.
pub proof fn capitals_are_lowered(s: Seq<char>, i: int)
    requires
        0 <= i < s.len(),
    ensures
        lowered(s).len() == s.len(),
        65 <= s[i] as int <= 90 ==> lowered(s)[i] as int == s[i] as int + 32,
        !(65 <= s[i] as int <= 90) ==> lowered(s)[i] == s[i],
{
}

/// Blanks, tabs and line ends are white space; nothing that ASCII prints is.
pub proof fn print_is_no_white_space(c: char)
    ensures
        c == ' ' || c == '\t' || c == '\n' || c == '\r' ==> is_white(c),
        33 <= c as int <= 126 ==> !is_white(c),
{
}

/// A text occurs wherever it stands between two others, and nowhere else.
pub proof fn occurrence_is_a_place(
    front: Seq<char>,
    part: Seq<char>,
    back: Seq<char>,
    s: Seq<char>,
    i: int,
)
    ensures
        occurs_at(front + part + back, part, front.len() as int),
        contains_text(front + part + back, part),
        begins_with(part + back, part),
        finishes_with(front + part, part),
        occurs_at(s, part, i) ==> 0 <= i <= s.len() - part.len() && s == s.take(i) + part + s.skip(
            i + part.len(),
        ),
        begins_with(s, part) ==> s == part + s.skip(part.len() as int),
        finishes_with(s, part) ==> s == s.take(s.len() - part.len()) + part,
{
    let n = front.len() as int;
    let all = front + part + back;
    assert(all.subrange(n, n + part.len()) =~= part);
    assert(occurs_at(all, part, n));
    assert((part + back).subrange(0, part.len() as int) =~= part);
    assert((front + part).subrange(n, n + part.len()) =~= part);
    if occurs_at(s, part, i) {
        assert(s =~= s.take(i) + s.subrange(i, i + part.len()) + s.skip(i + part.len()));
    }
    if begins_with(s, part) {
        assert(s =~= s.subrange(0, part.len() as int) + s.skip(part.len() as int));
    }
    if finishes_with(s, part) {
        let k = s.len() - part.len();
        assert(s =~= s.take(k) + s.subrange(k, k + part.len()));
    }
}

/// A text in which another does not occur keeps every character, and one that begins
/// with it begins with the replacement instead.
pub proof fn occurrences_are_replaced(s: Seq<char>, from: Seq<char>, to: Seq<char>)
    requires
        from.len() > 0,
    ensures
        !contains_text(s, from) ==> replaced(s, from, to) == s,
        replaced(from + s, from, to) == to + replaced(s, from, to),
        s.len() > 0 && !begins_with(s, from) ==> replaced(s, from, to) == seq![s[0]] + replaced(
            s.drop_first(),
            from,
            to,
        ),
    decreases s.len(),
{
    let f = from + s;
    assert(f.subrange(0, from.len() as int) =~= from);
    assert(f.skip(from.len() as int) =~= s);
    if s.len() > 0 && !contains_text(s, from) {
        let rest = s.drop_first();
        assert(!occurs_at(s, from, 0));
        assert forall|i: int| !occurs_at(rest, from, i) by {
            if occurs_at(rest, from, i) {
                assert(s.subrange(i + 1, i + 1 + from.len()) =~= rest.subrange(i, i + from.len()));
                assert(occurs_at(s, from, i + 1));
            }
        }
        occurrences_are_replaced(rest, from, to);
        assert(seq![s[0]] + rest =~= s);
    }
}

} // verus!
