//! Character-level text helpers shared by the parsers, with their
//! mathematical meaning stated over `Seq<char>`.
//!
//! Executable helpers work on a character vector and a half-open index range
//! `lo..hi`; their contracts speak of `v@.subrange(lo, hi)`.

use vstd::prelude::*;

verus! {

// ---------------------------------------------------------------------------
// Meaning of the standard text operations
// ---------------------------------------------------------------------------

/// The Unicode `White_Space` property, which `char::is_whitespace` tests.
pub open spec fn is_ws(c: char) -> bool {
    ('\t' <= c && c <= '\r') || c == ' ' || c == '\u{85}' || c == '\u{a0}' || c == '\u{1680}'
        || ('\u{2000}' <= c && c <= '\u{200a}') || c == '\u{2028}' || c == '\u{2029}'
        || c == '\u{202f}' || c == '\u{205f}' || c == '\u{3000}'
}

/// `s` without its leading whitespace (`str::trim_start`).
pub open spec fn trim_start(s: Seq<char>) -> Seq<char>
    decreases s.len(),
{
    if s.len() > 0 && is_ws(s[0]) {
        trim_start(s.drop_first())
    } else {
        s
    }
}

/// `s` without its trailing whitespace (`str::trim_end`).
pub open spec fn trim_end(s: Seq<char>) -> Seq<char>
    decreases s.len(),
{
    if s.len() > 0 && is_ws(s.last()) {
        trim_end(s.drop_last())
    } else {
        s
    }
}

/// `s` without leading and trailing whitespace (`str::trim`).
pub open spec fn trim(s: Seq<char>) -> Seq<char> {
    trim_end(trim_start(s))
}

/// `s` without all trailing copies of `c` (`str::trim_end_matches` with a char).
pub open spec fn trim_end_matches(s: Seq<char>, c: char) -> Seq<char>
    decreases s.len(),
{
    if s.len() > 0 && s.last() == c {
        trim_end_matches(s.drop_last(), c)
    } else {
        s
    }
}

/// Number of leading characters of `s` before the first whitespace.
pub open spec fn word_len(s: Seq<char>) -> nat
    decreases s.len(),
{
    if s.len() == 0 || is_ws(s[0]) {
        0
    } else {
        1 + word_len(s.drop_first())
    }
}

/// Position of the first `c` in `s`, or `s.len()` when `s` holds none.
pub open spec fn find(s: Seq<char>, c: char) -> nat
    decreases s.len(),
{
    if s.len() == 0 || s[0] == c {
        0
    } else {
        1 + find(s.drop_first(), c)
    }
}

pub proof fn lemma_word_len_bounds(s: Seq<char>)
    ensures
        word_len(s) <= s.len(),
        s.len() > 0 && !is_ws(s[0]) ==> word_len(s) >= 1,
    decreases s.len(),
{
    if s.len() > 0 && !is_ws(s[0]) {
        lemma_word_len_bounds(s.drop_first());
    }
}

pub proof fn lemma_find_bounds(s: Seq<char>, c: char)
    ensures
        find(s, c) <= s.len(),
        find(s, c) < s.len() ==> s[find(s, c) as int] == c,
        forall|i: int| 0 <= i < find(s, c) ==> s[i] != c,
    decreases s.len(),
{
    if s.len() > 0 && s[0] != c {
        lemma_find_bounds(s.drop_first(), c);
        assert forall|i: int| 0 <= i < find(s, c) implies s[i] != c by {
            if i > 0 {
                assert(s[i] == s.drop_first()[i - 1]);
            }
        }
    }
}

/// The whitespace-separated words of `s`, in order (`str::split_whitespace`).
pub open spec fn words(s: Seq<char>) -> Seq<Seq<char>>
    decreases s.len(),
{
    if s.len() == 0 {
        seq![]
    } else if is_ws(s[0]) {
        words(s.drop_first())
    } else {
        proof {
            lemma_word_len_bounds(s);
        }
        seq![s.take(word_len(s) as int)] + words(s.skip(word_len(s) as int))
    }
}

/// `s` without one trailing carriage return.
pub open spec fn strip_cr(s: Seq<char>) -> Seq<char> {
    if s.len() > 0 && s.last() == '\r' {
        s.drop_last()
    } else {
        s
    }
}

/// The lines of `s` (`str::lines`): split at `'\n'`, one `'\r'` before the
/// newline dropped, no empty line after a final newline.
pub open spec fn lines(s: Seq<char>) -> Seq<Seq<char>>
    decreases s.len(),
{
    if s.len() == 0 {
        seq![]
    } else {
        proof {
            lemma_find_bounds(s, '\n');
        }
        if find(s, '\n') >= s.len() {
            seq![s]
        } else {
            seq![strip_cr(s.take(find(s, '\n') as int))] + lines(s.skip(find(s, '\n') + 1int))
        }
    }
}

/// `s` is empty or ends in a newline: its lines are whole lines.
pub open spec fn ends_in_newline(s: Seq<char>) -> bool {
    s.len() == 0 || s.last() == '\n'
}

/// The first `c` of `a + b` is the first of `a`, when `a` holds one.
pub proof fn lemma_find_concat(a: Seq<char>, b: Seq<char>, c: char)
    requires
        find(a, c) < a.len(),
    ensures
        find(a + b, c) == find(a, c),
    decreases a.len(),
{
    assert((a + b)[0] == a[0]);
    if a[0] != c {
        assert((a + b).drop_first() =~= a.drop_first() + b);
        lemma_find_concat(a.drop_first(), b, c);
    }
}

/// The lines of `a + b` are those of `a` followed by those of `b`, when `a`
/// ends in a newline.
pub proof fn lemma_lines_concat(a: Seq<char>, b: Seq<char>)
    requires
        ends_in_newline(a),
    ensures
        lines(a + b) == lines(a) + lines(b),
    decreases a.len(),
{
    if a.len() == 0 {
        assert(a + b =~= b);
        assert(lines(a) =~= Seq::<Seq<char>>::empty());
        assert(lines(a) + lines(b) =~= lines(b));
    } else {
        lemma_find_bounds(a, '\n');
        if find(a, '\n') >= a.len() {
            assert(a[a.len() - 1] != '\n');
        }
        let f = find(a, '\n');
        lemma_find_concat(a, b, '\n');
        lemma_find_bounds(a + b, '\n');
        let rest = a.skip(f + 1int);
        assert((a + b).take(f as int) =~= a.take(f as int));
        assert((a + b).skip(f + 1int) =~= rest + b);
        assert(ends_in_newline(rest)) by {
            if rest.len() > 0 {
                assert(rest.last() == a.last());
            }
        }
        lemma_lines_concat(rest, b);
        assert(lines(a) == seq![strip_cr(a.take(f as int))] + lines(rest));
        assert(lines(a + b) == seq![strip_cr(a.take(f as int))] + lines(rest + b));
        assert(lines(a + b) =~= lines(a) + lines(b));
    }
}

/// A word: a nonempty run of characters none of which is whitespace.
pub open spec fn is_word(w: Seq<char>) -> bool {
    w.len() > 0 && forall|i: int| 0 <= i < w.len() ==> !is_ws(#[trigger] w[i])
}

/// Whether every character of `p` is whitespace.
pub open spec fn all_ws(p: Seq<char>) -> bool {
    forall|i: int| 0 <= i < p.len() ==> is_ws(#[trigger] p[i])
}

/// A word followed by nothing or by whitespace is one word long.
pub proof fn lemma_word_len_of_word(w: Seq<char>, rest: Seq<char>)
    requires
        forall|i: int| 0 <= i < w.len() ==> !is_ws(#[trigger] w[i]),
        rest.len() == 0 || is_ws(rest[0]),
    ensures
        word_len(w + rest) == w.len(),
    decreases w.len(),
{
    if w.len() == 0 {
        assert(w + rest =~= rest);
    } else {
        assert((w + rest)[0] == w[0]);
        assert((w + rest).drop_first() =~= w.drop_first() + rest);
        assert forall|i: int| 0 <= i < w.drop_first().len() implies !is_ws(
            #[trigger] w.drop_first()[i],
        ) by {
            assert(w.drop_first()[i] == w[i + 1]);
        }
        lemma_word_len_of_word(w.drop_first(), rest);
    }
}

/// Leading whitespace goes in `trim_start`.
pub proof fn lemma_trim_start_after_ws(p: Seq<char>, x: Seq<char>)
    requires
        all_ws(p),
    ensures
        trim_start(p + x) == trim_start(x),
    decreases p.len(),
{
    if p.len() == 0 {
        assert(p + x =~= x);
    } else {
        assert((p + x)[0] == p[0]);
        assert((p + x).drop_first() =~= p.drop_first() + x);
        assert forall|i: int| 0 <= i < p.drop_first().len() implies is_ws(
            #[trigger] p.drop_first()[i],
        ) by {
            assert(p.drop_first()[i] == p[i + 1]);
        }
        lemma_trim_start_after_ws(p.drop_first(), x);
    }
}

/// A word is its own trim, and its own only word.
pub proof fn lemma_word_trim(w: Seq<char>)
    requires
        is_word(w),
    ensures
        trim_start(w) == w,
        trim_end(w) == w,
        trim(w) == w,
        words(w) == seq![w],
        first_word(w) == Some(w),
{
    assert(!is_ws(w[0]));
    assert(!is_ws(w[w.len() - 1]));
    lemma_word_len_of_word(w, Seq::<char>::empty());
    assert(w + Seq::<char>::empty() =~= w);
    assert(w.take(w.len() as int) =~= w);
    assert(w.skip(w.len() as int) =~= Seq::<char>::empty());
    assert(words(Seq::<char>::empty()) =~= Seq::<Seq<char>>::empty());
    assert(words(w) =~= seq![w]);
}

/// Past a piece without `c`, the first `c` is found in what follows.
pub proof fn lemma_find_after(l: Seq<char>, x: Seq<char>, c: char)
    requires
        !l.contains(c),
    ensures
        find(l + x, c) == l.len() + find(x, c),
    decreases l.len(),
{
    if l.len() == 0 {
        assert(l + x =~= x);
    } else {
        assert((l + x)[0] == l[0]);
        assert(l[0] != c);
        assert((l + x).drop_first() =~= l.drop_first() + x);
        assert(!l.drop_first().contains(c)) by {
            if l.drop_first().contains(c) {
                let i = choose|i: int| 0 <= i < l.drop_first().len() && l.drop_first()[i] == c;
                assert(l[i + 1] == c);
            }
        }
        lemma_find_after(l.drop_first(), x, c);
    }
}

/// A piece without a newline, followed by one, is one line.
pub proof fn lemma_single_line(l: Seq<char>)
    requires
        !l.contains('\n'),
        !(l.len() > 0 && l.last() == '\r'),
    ensures
        lines(l + seq!['\n']) == seq![l],
{
    let s = l + seq!['\n'];
    lemma_find_after(l, seq!['\n'], '\n');
    assert(find(seq!['\n'], '\n') == 0);
    assert(s.take(l.len() as int) =~= l);
    assert(s.skip(l.len() + 1int) =~= Seq::<char>::empty());
    assert(strip_cr(l) == l);
    assert(find(s, '\n') == l.len());
    assert(s.len() > 0);
    assert(lines(Seq::<char>::empty()) =~= Seq::<Seq<char>>::empty());
    assert(lines(s) == seq![strip_cr(s.take(l.len() as int))] + lines(s.skip(l.len() + 1int)));
    assert(lines(s) =~= seq![l]);
}

/// `char::to_ascii_lowercase`.
pub open spec fn ascii_lower(c: char) -> char {
    if 'A' <= c && c <= 'Z' {
        ((c as int) + 32) as char
    } else {
        c
    }
}

/// `s` with ASCII letters lowered (`str::to_ascii_lowercase`).
pub open spec fn lower(s: Seq<char>) -> Seq<char> {
    s.map_values(|c: char| ascii_lower(c))
}

/// `str::eq_ignore_ascii_case`.
pub open spec fn eq_ignore_ascii_case(a: Seq<char>, b: Seq<char>) -> bool {
    lower(a) == lower(b)
}

// ---------------------------------------------------------------------------
// Executable helpers
// ---------------------------------------------------------------------------

/// Copy the characters of `s` into a vector.
pub fn chars_of(s: &str) -> (v: Vec<char>)
    ensures
        v@ == s@,
{
    let mut v: Vec<char> = Vec::new();
    for c in it: s.chars()
        invariant
            v@ == it.seq().take(it.index() as int),
    {
        v.push(c);
    }
    v
}

/// `char::is_whitespace`.
pub fn is_whitespace(c: char) -> (b: bool)
    ensures
        b == is_ws(c),
{
    ('\t' <= c && c <= '\r') || c == ' ' || c == '\u{85}' || c == '\u{a0}' || c == '\u{1680}'
        || ('\u{2000}' <= c && c <= '\u{200a}') || c == '\u{2028}' || c == '\u{2029}'
        || c == '\u{202f}' || c == '\u{205f}' || c == '\u{3000}'
}

/// `char::to_ascii_lowercase`.
pub fn to_ascii_lower(c: char) -> (d: char)
    ensures
        d == ascii_lower(c),
{
    if 'A' <= c && c <= 'Z' {
        let b: u8 = c as u8;
        assert(b == c as int);
        (b + 32) as char
    } else {
        c
    }
}


/// First index `i >= lo` in `lo..hi` that is not whitespace, or `hi`:
/// `v[i..hi]` is `v[lo..hi]` trimmed at the start.
pub fn skip_ws(v: &Vec<char>, lo: usize, hi: usize) -> (i: usize)
    requires
        lo <= hi <= v.len(),
    ensures
        lo <= i <= hi,
        trim_start(v@.subrange(lo as int, hi as int)) == v@.subrange(i as int, hi as int),
        i < hi ==> !is_ws(v@[i as int]),
        forall|k: int| lo <= k < i ==> is_ws(#[trigger] v@[k]),
{
    let mut i = lo;
    while i < hi && is_whitespace(v[i])
        invariant
            lo <= i <= hi,
            hi <= v.len(),
            trim_start(v@.subrange(lo as int, hi as int)) == trim_start(
                v@.subrange(i as int, hi as int),
            ),
            forall|k: int| lo <= k < i ==> is_ws(#[trigger] v@[k]),
        decreases hi - i,
    {
        assert(v@.subrange(i as int, hi as int).drop_first() =~= v@.subrange(i + 1, hi as int));
        i += 1;
    }
    i
}

/// End `j` of `lo..hi` once trailing whitespace is dropped:
/// `v[lo..j]` is `v[lo..hi]` trimmed at the end.
pub fn trim_end_at(v: &Vec<char>, lo: usize, hi: usize) -> (j: usize)
    requires
        lo <= hi <= v.len(),
    ensures
        lo <= j <= hi,
        trim_end(v@.subrange(lo as int, hi as int)) == v@.subrange(lo as int, j as int),
{
    let mut j = hi;
    while j > lo && is_whitespace(v[j - 1])
        invariant
            lo <= j <= hi,
            hi <= v.len(),
            trim_end(v@.subrange(lo as int, hi as int)) == trim_end(
                v@.subrange(lo as int, j as int),
            ),
        decreases j - lo,
    {
        assert(v@.subrange(lo as int, j as int).drop_last() =~= v@.subrange(lo as int, j - 1));
        j -= 1;
    }
    j
}

/// Bounds of `v[lo..hi]` trimmed at both ends.
pub fn trim_range(v: &Vec<char>, lo: usize, hi: usize) -> (r: (usize, usize))
    requires
        lo <= hi <= v.len(),
    ensures
        lo <= r.0 <= r.1 <= hi,
        trim(v@.subrange(lo as int, hi as int)) == v@.subrange(r.0 as int, r.1 as int),
{
    let a = skip_ws(v, lo, hi);
    let b = trim_end_at(v, a, hi);
    (a, b)
}

/// End of the run of non-whitespace characters that starts at `lo`.
pub fn word_end(v: &Vec<char>, lo: usize, hi: usize) -> (j: usize)
    requires
        lo <= hi <= v.len(),
    ensures
        lo <= j <= hi,
        word_len(v@.subrange(lo as int, hi as int)) == j - lo,
        j < hi ==> is_ws(v@[j as int]),
        forall|k: int| lo <= k < j ==> !is_ws(#[trigger] v@[k]),
{
    let mut j = lo;
    while j < hi && !is_whitespace(v[j])
        invariant
            lo <= j <= hi,
            hi <= v.len(),
            word_len(v@.subrange(lo as int, hi as int)) == (j - lo) + word_len(
                v@.subrange(j as int, hi as int),
            ),
            forall|k: int| lo <= k < j ==> !is_ws(#[trigger] v@[k]),
        decreases hi - j,
    {
        assert(v@.subrange(j as int, hi as int).drop_first() =~= v@.subrange(j + 1, hi as int));
        j += 1;
    }
    j
}

/// Position of the first `c` in `v[lo..hi]`, or `hi`.
pub fn find_char(v: &Vec<char>, lo: usize, hi: usize, c: char) -> (j: usize)
    requires
        lo <= hi <= v.len(),
    ensures
        lo <= j <= hi,
        find(v@.subrange(lo as int, hi as int), c) == j - lo,
{
    let mut j = lo;
    while j < hi && v[j] != c
        invariant
            lo <= j <= hi,
            hi <= v.len(),
            find(v@.subrange(lo as int, hi as int), c) == (j - lo) + find(
                v@.subrange(j as int, hi as int),
                c,
            ),
        decreases hi - j,
    {
        assert(v@.subrange(j as int, hi as int).drop_first() =~= v@.subrange(j + 1, hi as int));
        j += 1;
    }
    j
}

/// Whether `v[lo..hi]` holds `c`.
pub fn contains_char(v: &Vec<char>, lo: usize, hi: usize, c: char) -> (b: bool)
    requires
        lo <= hi <= v.len(),
    ensures
        b == v@.subrange(lo as int, hi as int).contains(c),
{
    let mut j = lo;
    while j < hi
        invariant
            lo <= j <= hi,
            hi <= v.len(),
            forall|k: int| lo <= k < j ==> v@[k] != c,
        decreases hi - j,
    {
        if v[j] == c {
            assert(v@.subrange(lo as int, hi as int)[j - lo] == c);
            return true;
        }
        j += 1;
    }
    assert forall|k: int| 0 <= k < hi - lo implies v@.subrange(lo as int, hi as int)[k] != c by {
        assert(v@.subrange(lo as int, hi as int)[k] == v@[lo + k]);
    }
    false
}

/// Whether `v[lo..hi]` equals `w` once ASCII letters are lowered on both sides.
pub fn eq_ignore_case_range(v: &Vec<char>, lo: usize, hi: usize, w: &Vec<char>) -> (b: bool)
    requires
        lo <= hi <= v.len(),
    ensures
        b == eq_ignore_ascii_case(v@.subrange(lo as int, hi as int), w@),
{
    let ghost s = v@.subrange(lo as int, hi as int);
    if hi - lo != w.len() {
        assert(lower(s).len() != lower(w@).len());
        return false;
    }
    let mut k: usize = 0;
    while k < w.len()
        invariant
            hi - lo == w.len(),
            lo <= hi <= v.len(),
            k <= w.len(),
            s == v@.subrange(lo as int, hi as int),
            forall|i: int| 0 <= i < k ==> ascii_lower(s[i]) == ascii_lower(w@[i]),
        decreases w.len() - k,
    {
        if to_ascii_lower(v[lo + k]) != to_ascii_lower(w[k]) {
            assert(lower(s)[k as int] != lower(w@)[k as int]);
            return false;
        }
        k += 1;
    }
    assert(lower(s) =~= lower(w@));
    true
}

/// Whether `v[lo..hi]` equals `w`.
pub fn eq_range(v: &Vec<char>, lo: usize, hi: usize, w: &Vec<char>) -> (b: bool)
    requires
        lo <= hi <= v.len(),
    ensures
        b == (v@.subrange(lo as int, hi as int) == w@),
{
    let ghost s = v@.subrange(lo as int, hi as int);
    if hi - lo != w.len() {
        return false;
    }
    let mut k: usize = 0;
    while k < w.len()
        invariant
            hi - lo == w.len(),
            lo <= hi <= v.len(),
            k <= w.len(),
            s == v@.subrange(lo as int, hi as int),
            forall|i: int| 0 <= i < k ==> s[i] == w@[i],
        decreases w.len() - k,
    {
        if v[lo + k] != w[k] {
            assert(s[k as int] != w@[k as int]);
            return false;
        }
        k += 1;
    }
    assert(s =~= w@);
    true
}

/// Whether `a` and `b` hold the same characters.
pub fn str_eq(a: &str, b: &str) -> (r: bool)
    ensures
        r == (a@ == b@),
{
    let va = chars_of(a);
    let vb = chars_of(b);
    let r = eq_range(&va, 0, va.len(), &vb);
    assert(va@.subrange(0, va@.len() as int) =~= va@);
    r
}

/// The string whose characters are `v[lo..hi]`.
pub fn string_of_range(v: &Vec<char>, lo: usize, hi: usize) -> (s: String)
    requires
        lo <= hi <= v.len(),
    ensures
        s@ == v@.subrange(lo as int, hi as int),
{
    let mut w: Vec<char> = Vec::new();
    let mut k = lo;
    while k < hi
        invariant
            lo <= k <= hi,
            hi <= v.len(),
            w@ == v@.subrange(lo as int, k as int),
        decreases hi - k,
    {
        w.push(v[k]);
        assert(w@ =~= v@.subrange(lo as int, k + 1));
        k += 1;
    }
    string_from_chars(&w)
}

/// Collect characters into a `String` (`String: FromIterator<&char>`);
/// the documentation states that the string holds exactly those characters, in order.
#[verifier::external_body]
pub(crate) fn string_from_chars(cs: &Vec<char>) -> (s: String)
    ensures
        s@ == cs@,
{
    String::from_iter(cs.iter())
}

/// The first whitespace-separated word of `s`, if any
/// (`s.split_whitespace().next()`).
pub open spec fn first_word(s: Seq<char>) -> Option<Seq<char>> {
    if words(s).len() > 0 {
        Some(words(s)[0])
    } else {
        None
    }
}

pub proof fn lemma_words_trim_start(s: Seq<char>)
    ensures
        words(s) == words(trim_start(s)),
    decreases s.len(),
{
    if s.len() > 0 && is_ws(s[0]) {
        lemma_words_trim_start(s.drop_first());
    }
}

/// Unfold `words` at position `i` of `v[..hi]`: a whitespace character is
/// skipped; otherwise the word `v[i..j]` comes first.
pub proof fn lemma_words_step(v: Seq<char>, i: int, j: int, hi: int)
    requires
        0 <= i < hi <= v.len(),
        !is_ws(v[i]) ==> (i < j <= hi && word_len(v.subrange(i, hi)) == j - i),
    ensures
        is_ws(v[i]) ==> words(v.subrange(i, hi)) == words(v.subrange(i + 1, hi)),
        !is_ws(v[i]) ==> words(v.subrange(i, hi)) == seq![v.subrange(i, j)] + words(
            v.subrange(j, hi),
        ),
{
    let s = v.subrange(i, hi);
    assert(s.drop_first() =~= v.subrange(i + 1, hi));
    if !is_ws(v[i]) {
        assert(s.take(j - i) =~= v.subrange(i, j));
        assert(s.skip(j - i) =~= v.subrange(j, hi));
    }
}

/// Bounds of the first word of `v[lo..hi]`, if it has one.
pub fn first_word_range(v: &Vec<char>, lo: usize, hi: usize) -> (r: Option<(usize, usize)>)
    requires
        lo <= hi <= v.len(),
    ensures
        match r {
            None => first_word(v@.subrange(lo as int, hi as int)) is None,
            Some((a, b)) => lo <= a <= b <= hi && first_word(v@.subrange(lo as int, hi as int))
                == Some(v@.subrange(a as int, b as int)),
        },
{
    let i = skip_ws(v, lo, hi);
    proof {
        lemma_words_trim_start(v@.subrange(lo as int, hi as int));
    }
    if i == hi {
        assert(v@.subrange(i as int, hi as int) =~= Seq::<char>::empty());
        None
    } else {
        let j = word_end(v, i, hi);
        proof {
            assert(v@.subrange(i as int, hi as int)[0] == v@[i as int]);
            lemma_word_len_bounds(v@.subrange(i as int, hi as int));
            lemma_words_step(v@, i as int, j as int, hi as int);
        }
        Some((i, j))
    }
}

/// End `j` of `lo..hi` once every trailing `c` is dropped.
pub fn trim_end_char(v: &Vec<char>, lo: usize, hi: usize, c: char) -> (j: usize)
    requires
        lo <= hi <= v.len(),
    ensures
        lo <= j <= hi,
        trim_end_matches(v@.subrange(lo as int, hi as int), c) == v@.subrange(lo as int, j as int),
{
    let mut j = hi;
    while j > lo && v[j - 1] == c
        invariant
            lo <= j <= hi,
            hi <= v.len(),
            trim_end_matches(v@.subrange(lo as int, hi as int), c) == trim_end_matches(
                v@.subrange(lo as int, j as int),
                c,
            ),
        decreases j - lo,
    {
        assert(v@.subrange(lo as int, j as int).drop_last() =~= v@.subrange(lo as int, j - 1));
        j -= 1;
    }
    j
}

/// The line that starts at `pos` ends at `r.0` (its newline and a carriage
/// return before it excluded); the next line starts at `r.1`.
pub fn line_at(v: &Vec<char>, pos: usize) -> (r: (usize, usize))
    requires
        pos < v.len(),
    ensures
        pos <= r.0 <= r.1 <= v.len(),
        pos < r.1,
        lines(v@.subrange(pos as int, v.len() as int)) == seq![v@.subrange(pos as int, r.0 as int)]
            + lines(v@.subrange(r.1 as int, v.len() as int)),
{
    let n = v.len();
    let nl = find_char(v, pos, n, '\n');
    let ghost s = v@.subrange(pos as int, n as int);
    proof {
        lemma_find_bounds(s, '\n');
    }
    if nl == n {
        assert(v@.subrange(n as int, n as int) =~= Seq::<char>::empty());
        (n, n)
    } else {
        assert(s.take(nl - pos) =~= v@.subrange(pos as int, nl as int));
        assert(s.skip(nl - pos + 1) =~= v@.subrange(nl + 1, n as int));
        if nl > pos && v[nl - 1] == '\r' {
            assert(v@.subrange(pos as int, nl as int).drop_last() =~= v@.subrange(
                pos as int,
                nl - 1,
            ));
            (nl - 1, nl + 1)
        } else {
            (nl, nl + 1)
        }
    }
}

// ---------------------------------------------------------------------------
// Lookup by name
// ---------------------------------------------------------------------------

/// Position of the first element of `s` equal to `x`, or `s.len()`.
pub open spec fn position_of(s: Seq<Seq<char>>, x: Seq<char>) -> nat
    decreases s.len(),
{
    if s.len() == 0 || s[0] == x {
        0
    } else {
        1 + position_of(s.drop_first(), x)
    }
}

/// `position_of` is `i` exactly when `s[i]` is the first `x`, and `s.len()`
/// when `s` holds no `x`.
pub proof fn lemma_position_of(s: Seq<Seq<char>>, x: Seq<char>, i: int)
    requires
        0 <= i <= s.len(),
        forall|j: int| 0 <= j < i ==> s[j] != x,
        i < s.len() ==> s[i] == x,
    ensures
        position_of(s, x) == i,
    decreases s.len(),
{
    if s.len() > 0 && s[0] != x {
        assert forall|j: int| 0 <= j < i - 1 implies s.drop_first()[j] != x by {
            assert(s.drop_first()[j] == s[j + 1]);
        }
        lemma_position_of(s.drop_first(), x, i - 1);
    }
}

/// No element before `position_of` equals `x`.
pub proof fn lemma_position_of_before(s: Seq<Seq<char>>, x: Seq<char>, m: int)
    requires
        0 <= m < position_of(s, x),
    ensures
        m < s.len(),
        s[m] != x,
    decreases s.len(),
{
    lemma_position_of_hit(s, x);
    if m > 0 {
        lemma_position_of_before(s.drop_first(), x, m - 1);
    }
}

/// `position_of` is at most the position of any occurrence of `x`.
pub proof fn lemma_position_of_le(s: Seq<Seq<char>>, x: Seq<char>, j: int)
    requires
        0 <= j < s.len(),
        s[j] == x,
    ensures
        position_of(s, x) <= j,
    decreases s.len(),
{
    if j > 0 && s[0] != x {
        assert(s.drop_first()[j - 1] == x);
        lemma_position_of_le(s.drop_first(), x, j - 1);
    }
}

/// When `position_of` is in range, it points at an `x`.
pub proof fn lemma_position_of_hit(s: Seq<Seq<char>>, x: Seq<char>)
    ensures
        position_of(s, x) <= s.len(),
        position_of(s, x) < s.len() ==> s[position_of(s, x) as int] == x,
    decreases s.len(),
{
    if s.len() > 0 && s[0] != x {
        lemma_position_of_hit(s.drop_first(), x);
    }
}

/// Append the characters `w` to `out`.
pub fn extend_chars(out: &mut Vec<char>, w: &Vec<char>)
    ensures
        final(out)@ == old(out)@ + w@,
{
    let mut k: usize = 0;
    while k < w.len()
        invariant
            k <= w.len(),
            out@ == old(out)@ + w@.take(k as int),
        decreases w.len() - k,
    {
        out.push(w[k]);
        assert(w@.take(k + 1) =~= w@.take(k as int).push(w@[k as int]));
        k += 1;
    }
    assert(w@.take(w.len() as int) =~= w@);
}

// ---------------------------------------------------------------------------
// Decimal numerals
// ---------------------------------------------------------------------------

/// The ASCII digit for `d < 10`.
pub open spec fn digit_char(d: nat) -> char {
    ((48 + d) as int) as char
}

/// The decimal numeral of `n`, as `Display` writes an unsigned integer.
pub open spec fn decimal(n: nat) -> Seq<char>
    decreases n,
{
    if n < 10 {
        seq![digit_char(n)]
    } else {
        decimal(n / 10) + seq![digit_char(n % 10)]
    }
}

/// Append the decimal numeral of `n` to `out`.
pub fn push_decimal(out: &mut Vec<char>, n: u64)
    ensures
        final(out)@ == old(out)@ + decimal(n as nat),
    decreases n,
{
    if n >= 10 {
        push_decimal(out, n / 10);
    }
    let d: u8 = (n % 10) as u8;
    let c = (48u8 + d) as char;
    assert(c == digit_char((n % 10) as nat));
    out.push(c);
    proof {
        if n >= 10 {
            assert(final(out)@ =~= old(out)@ + decimal(n as nat));
        } else {
            assert(final(out)@ =~= old(out)@ + decimal(n as nat));
        }
    }
}

// ---------------------------------------------------------------------------
// Ordered sets of strings
// ---------------------------------------------------------------------------

/// Lexicographic order on character sequences: the order of `String`'s `Ord`
/// (bytewise on UTF-8, which is the order of code points).
pub open spec fn seq_lt(a: Seq<char>, b: Seq<char>) -> bool
    decreases a.len(),
{
    if a.len() == 0 {
        b.len() > 0
    } else if b.len() == 0 {
        false
    } else if a[0] != b[0] {
        a[0] < b[0]
    } else {
        seq_lt(a.drop_first(), b.drop_first())
    }
}

pub proof fn lemma_seq_lt_irreflexive(a: Seq<char>)
    ensures
        !seq_lt(a, a),
    decreases a.len(),
{
    if a.len() > 0 {
        lemma_seq_lt_irreflexive(a.drop_first());
    }
}

pub proof fn lemma_seq_lt_transitive(a: Seq<char>, b: Seq<char>, c: Seq<char>)
    requires
        seq_lt(a, b),
        seq_lt(b, c),
    ensures
        seq_lt(a, c),
    decreases a.len(),
{
    if a.len() > 0 && b.len() > 0 && c.len() > 0 && a[0] == b[0] && b[0] == c[0] {
        lemma_seq_lt_transitive(a.drop_first(), b.drop_first(), c.drop_first());
    }
}

pub proof fn lemma_seq_lt_total(a: Seq<char>, b: Seq<char>)
    ensures
        a == b || seq_lt(a, b) || seq_lt(b, a),
    decreases a.len(),
{
    if a.len() > 0 && b.len() > 0 && a[0] == b[0] {
        lemma_seq_lt_total(a.drop_first(), b.drop_first());
        if a.drop_first() == b.drop_first() {
            assert(a =~= seq![a[0]] + a.drop_first());
            assert(b =~= seq![b[0]] + b.drop_first());
        }
    } else if a.len() == 0 && b.len() == 0 {
        assert(a =~= b);
    }
}

/// The characters of each string.
pub open spec fn string_views(v: Seq<String>) -> Seq<Seq<char>> {
    v.map_values(|s: String| s@)
}

/// Strictly increasing in the lexicographic order, hence free of duplicates:
/// the order in which a `BTreeSet<String>` yields its items.
pub open spec fn strictly_sorted(v: Seq<Seq<char>>) -> bool {
    forall|i: int, j: int| 0 <= i < j < v.len() ==> seq_lt(#[trigger] v[i], #[trigger] v[j])
}

/// Whether `a` comes before `b` in the lexicographic order.
pub fn chars_lt(a: &Vec<char>, b: &Vec<char>) -> (r: bool)
    ensures
        r == seq_lt(a@, b@),
{
    let mut k: usize = 0;
    assert(a@.skip(0) =~= a@ && b@.skip(0) =~= b@);
    while k < a.len() && k < b.len() && a[k] == b[k]
        invariant
            k <= a.len(),
            k <= b.len(),
            seq_lt(a@, b@) == seq_lt(a@.skip(k as int), b@.skip(k as int)),
        decreases a.len() - k,
    {
        assert(a@.skip(k as int).drop_first() =~= a@.skip(k + 1));
        assert(b@.skip(k as int).drop_first() =~= b@.skip(k + 1));
        k += 1;
    }
    if k == a.len() {
        k < b.len()
    } else if k == b.len() {
        false
    } else {
        a[k] < b[k]
    }
}

/// Insert `x` into the strictly sorted `set`, unless it is there already.
pub fn insert_sorted(set: &mut Vec<String>, x: String)
    requires
        strictly_sorted(string_views(old(set)@)),
    ensures
        strictly_sorted(string_views(final(set)@)),
        string_views(final(set)@).to_set() == string_views(old(set)@).to_set().insert(x@),
{
    let ghost old_views = string_views(set@);
    let xc = chars_of(x.as_str());
    let mut p: usize = 0;
    let mut found = false;
    while p < set.len() && !found
        invariant
            p <= set.len(),
            found ==> p < set.len() && !seq_lt(old_views[p as int], x@),
            set@ == old(set)@,
            old_views == string_views(set@),
            xc@ == x@,
            strictly_sorted(old_views),
            forall|i: int| 0 <= i < p ==> seq_lt(#[trigger] old_views[i], x@),
        decreases set.len() - p + (if found { 0int } else { 1int }),
    {
        let pc = chars_of(set[p].as_str());
        if !chars_lt(&pc, &xc) {
            found = true;
        } else {
            p += 1;
        }
    }
    if found && str_eq(set[p].as_str(), x.as_str()) {
        assert(old_views[p as int] == x@);
        assert(old_views.to_set().insert(x@) =~= old_views.to_set());
        return;
    }
    proof {
        if p < set.len() {
            lemma_seq_lt_total(old_views[p as int], x@);
            assert forall|i: int| p <= i < old_views.len() implies seq_lt(
                x@,
                #[trigger] old_views[i],
            ) by {
                if i > p {
                    lemma_seq_lt_transitive(x@, old_views[p as int], old_views[i]);
                }
            }
        }
    }
    set.insert(p, x);
    proof {
        let nv = string_views(set@);
        assert(nv =~= old_views.insert(p as int, x@));
        assert forall|i: int, j: int| 0 <= i < j < nv.len() implies seq_lt(
            #[trigger] nv[i],
            #[trigger] nv[j],
        ) by {
            if j < p {
            } else if i < p && j == p {
            } else if i < p && j > p {
                lemma_seq_lt_transitive(nv[i], x@, nv[j]);
            } else if i == p {
            } else {
                assert(nv[i] == old_views[i - 1] && nv[j] == old_views[j - 1]);
            }
        }
        assert(nv.to_set() =~= old_views.to_set().insert(x@)) by {
            assert forall|e: Seq<char>| nv.to_set().contains(e) <==> old_views.to_set().insert(
                x@,
            ).contains(e) by {
                if nv.contains(e) {
                    let k = choose|k: int| 0 <= k < nv.len() && #[trigger] nv[k] == e;
                    if k < p {
                        assert(old_views[k] == e);
                    } else if k > p {
                        assert(old_views[k - 1] == e);
                    }
                }
                if old_views.contains(e) {
                    let k = choose|k: int| 0 <= k < old_views.len() && #[trigger] old_views[k] == e;
                    if k < p {
                        assert(nv[k] == e);
                    } else {
                        assert(nv[k + 1] == e);
                    }
                }
                if e == x@ {
                    assert(nv[p as int] == e);
                }
            }
        }
    }
}

} // verus!
