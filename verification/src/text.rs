//! Text primitives over sequences of characters.
//!
//! Every parser in the crate works on `Vec<char>` copies of its input; the
//! spec functions here give the meaning of the usual string operations
//! (trimming, searching, splitting into lines) over `Seq<char>`.

use vstd::prelude::*;

verus! {

broadcast use vstd::string::group_string_axioms;

// ---------------------------------------------------------------------------
// Spec vocabulary
// ---------------------------------------------------------------------------

/// Unicode `White_Space` characters (the set `char::is_whitespace` accepts).
pub open spec fn is_ws(c: char) -> bool {
    ||| c == ' '
    ||| ('\t' <= c && c <= '\r')
    ||| c == '\u{85}'
    ||| c == '\u{a0}'
    ||| c == '\u{1680}'
    ||| ('\u{2000}' <= c && c <= '\u{200a}')
    ||| c == '\u{2028}'
    ||| c == '\u{2029}'
    ||| c == '\u{202f}'
    ||| c == '\u{205f}'
    ||| c == '\u{3000}'
}

pub open spec fn is_digit(c: char) -> bool {
    '0' <= c && c <= '9'
}

/// `s` with leading whitespace removed.
pub open spec fn trim_start(s: Seq<char>) -> Seq<char>
    decreases s.len(),
{
    if s.len() > 0 && is_ws(s[0]) {
        trim_start(s.drop_first())
    } else {
        s
    }
}

/// `s` with trailing whitespace removed.
pub open spec fn trim_end(s: Seq<char>) -> Seq<char>
    decreases s.len(),
{
    if s.len() > 0 && is_ws(s.last()) {
        trim_end(s.drop_last())
    } else {
        s
    }
}

/// `s` with whitespace removed at both ends.
pub open spec fn trim(s: Seq<char>) -> Seq<char> {
    trim_end(trim_start(s))
}

pub open spec fn starts_with(s: Seq<char>, p: Seq<char>) -> bool {
    p.len() <= s.len() && s.take(p.len() as int) == p
}

pub open spec fn ends_with(s: Seq<char>, p: Seq<char>) -> bool {
    p.len() <= s.len() && s.skip(s.len() - p.len()) == p
}

/// `p` occurs in `s` starting at index `i`.
pub open spec fn occurs_at(s: Seq<char>, p: Seq<char>, i: int) -> bool {
    0 <= i && i + p.len() <= s.len() && s.subrange(i, i + p.len()) == p
}

/// First index at or after `i` where `p` occurs in `s`.
pub open spec fn find_from(s: Seq<char>, p: Seq<char>, i: int) -> Option<int>
    decreases s.len() + 1 - i,
{
    if i < 0 || i + p.len() > s.len() {
        None
    } else if occurs_at(s, p, i) {
        Some(i)
    } else {
        find_from(s, p, i + 1)
    }
}

/// First index where `p` occurs in `s`.
pub open spec fn find(s: Seq<char>, p: Seq<char>) -> Option<int> {
    find_from(s, p, 0)
}

pub open spec fn contains(s: Seq<char>, p: Seq<char>) -> bool {
    find(s, p) is Some
}

/// Last index at or before `i` where `p` occurs in `s`.
pub open spec fn rfind_to(s: Seq<char>, p: Seq<char>, i: int) -> Option<int>
    decreases i + 1,
{
    if i < 0 {
        None
    } else if occurs_at(s, p, i) {
        Some(i)
    } else {
        rfind_to(s, p, i - 1)
    }
}

/// Last index where `p` occurs in `s`.
pub open spec fn rfind(s: Seq<char>, p: Seq<char>) -> Option<int> {
    rfind_to(s, p, s.len() - p.len())
}

/// First index of character `c` in `s`.
pub open spec fn find_char(s: Seq<char>, c: char) -> Option<int> {
    find(s, seq![c])
}

/// `s` without one trailing carriage return.
pub open spec fn strip_cr(s: Seq<char>) -> Seq<char> {
    if s.len() > 0 && s.last() == '\r' {
        s.drop_last()
    } else {
        s
    }
}

/// The lines of `s`: split at `\n`, a `\r` before it removed, and no final
/// empty line after a trailing `\n`.
pub open spec fn lines(s: Seq<char>) -> Seq<Seq<char>>
    decreases s.len(),
{
    if s.len() == 0 {
        seq![]
    } else {
        match find_char(s, '\n') {
            None => seq![s],
            Some(i) => {
                proof {
                    lemma_find_from_bounds(s, seq!['\n'], 0);
                }
                seq![strip_cr(s.take(i))] + lines(s.skip(i + 1))
            },
        }
    }
}

/// Pieces of `s` between occurrences of `c` (always at least one).
pub open spec fn split_char(s: Seq<char>, c: char) -> Seq<Seq<char>>
    decreases s.len(),
{
    match find_char(s, c) {
        None => seq![s],
        Some(i) => {
            proof {
                lemma_find_from_bounds(s, seq![c], 0);
            }
            seq![s.take(i)] + split_char(s.skip(i + 1), c)
        },
    }
}

/// Concatenation of `parts` with `sep` between consecutive parts.
pub open spec fn join(parts: Seq<Seq<char>>, sep: Seq<char>) -> Seq<char>
    decreases parts.len(),
{
    if parts.len() == 0 {
        seq![]
    } else if parts.len() == 1 {
        parts[0]
    } else {
        join(parts.drop_last(), sep) + sep + parts.last()
    }
}

/// Number of lines of `s` that contain `p`.
pub open spec fn count_containing(ls: Seq<Seq<char>>, p: Seq<char>) -> nat
    decreases ls.len(),
{
    if ls.len() == 0 {
        0
    } else {
        count_containing(ls.drop_last(), p) + if contains(ls.last(), p) { 1nat } else { 0nat }
    }
}

// ---------------------------------------------------------------------------
// Lemmas
// ---------------------------------------------------------------------------

pub proof fn lemma_find_from_bounds(s: Seq<char>, p: Seq<char>, i: int)
    ensures
        find_from(s, p, i) matches Some(k) ==> i <= k && occurs_at(s, p, k)
            && (forall|j: int| i <= j < k ==> !occurs_at(s, p, j)),
        0 <= i && find_from(s, p, i) is None ==> (forall|j: int| i <= j ==> !#[trigger] occurs_at(s, p, j)),
    decreases s.len() + 1 - i,
{
    if i < 0 || i + p.len() > s.len() {
    } else if occurs_at(s, p, i) {
    } else {
        lemma_find_from_bounds(s, p, i + 1);
    }
}

pub proof fn lemma_occurs_char(s: Seq<char>, c: char, j: int)
    ensures
        occurs_at(s, seq![c], j) <==> (0 <= j < s.len() && s[j] == c),
{
    if 0 <= j < s.len() {
        assert(s.subrange(j, j + 1) =~= seq![s[j]]);
        if s[j] != c {
            assert(s.subrange(j, j + 1)[0] != seq![c][0]);
        }
    }
}

pub proof fn lemma_rfind_to_bounds(s: Seq<char>, p: Seq<char>, i: int)
    ensures
        rfind_to(s, p, i) matches Some(k) ==> 0 <= k <= i && occurs_at(s, p, k)
            && (forall|j: int| k < j <= i ==> !occurs_at(s, p, j)),
        rfind_to(s, p, i) is None ==> (forall|j: int| 0 <= j <= i ==> !occurs_at(s, p, j)),
    decreases i + 1,
{
    if i >= 0 && !occurs_at(s, p, i) {
        lemma_rfind_to_bounds(s, p, i - 1);
    }
}

pub proof fn lemma_trim_start_is_suffix(s: Seq<char>)
    ensures
        trim_start(s).len() <= s.len(),
        trim_start(s) == s.skip(s.len() - trim_start(s).len()),
        forall|j: int| 0 <= j < s.len() - trim_start(s).len() ==> is_ws(#[trigger] s[j]),
        trim_start(s).len() > 0 ==> !is_ws(trim_start(s)[0]),
    decreases s.len(),
{
    if s.len() > 0 && is_ws(s[0]) {
        lemma_trim_start_is_suffix(s.drop_first());
        assert forall|j: int| 0 <= j < s.len() - trim_start(s).len() implies is_ws(#[trigger] s[j]) by {
            if j > 0 {
                assert(s[j] == s.drop_first()[j - 1]);
            }
        }
        assert(s.drop_first().skip(s.drop_first().len() - trim_start(s).len())
            =~= s.skip(s.len() - trim_start(s).len()));
    } else {
        assert(s.skip(0) =~= s);
    }
}

pub proof fn lemma_trim_end_is_prefix(s: Seq<char>)
    ensures
        trim_end(s).len() <= s.len(),
        trim_end(s) == s.take(trim_end(s).len() as int),
        forall|j: int| trim_end(s).len() <= j < s.len() ==> is_ws(#[trigger] s[j]),
        trim_end(s).len() > 0 ==> !is_ws(trim_end(s).last()),
    decreases s.len(),
{
    if s.len() > 0 && is_ws(s.last()) {
        lemma_trim_end_is_prefix(s.drop_last());
        assert forall|j: int| trim_end(s).len() <= j < s.len() implies is_ws(#[trigger] s[j]) by {
            if j < s.len() - 1 {
                assert(s[j] == s.drop_last()[j]);
            }
        }
        assert(s.drop_last().take(trim_end(s).len() as int) =~= s.take(trim_end(s).len() as int));
    } else {
        assert(s.take(s.len() as int) =~= s);
    }
}

// ---------------------------------------------------------------------------
// Executable primitives
// ---------------------------------------------------------------------------

/// The characters of a string slice, in order.
pub fn chars_of(s: &str) -> (v: Vec<char>)
    ensures
        v@ == s@,
{
    let mut v: Vec<char> = Vec::new();
    for c in it: s.chars()
        invariant
            it.seq() == s@,
            v@ == it.seq().take(it.index() as int),
    {
        v.push(c);
    }
    v
}

/// Appends one character to a `String` (`String::push`).
#[verifier::external_body]
fn push_char(s: &mut String, c: char)
    ensures
        final(s)@ == old(s)@.push(c),
{
    s.push(c);
}

/// A `String` holding exactly the characters `v`.
pub fn string_of(v: &Vec<char>) -> (r: String)
    ensures
        r@ == v@,
{
    let mut r = String::new();
    let mut i: usize = 0;
    while i < v.len()
        invariant
            i <= v.len(),
            r@ == v@.take(i as int),
        decreases v.len() - i,
    {
        push_char(&mut r, v[i]);
        assert(v@.take(i as int).push(v@[i as int]) =~= v@.take(i + 1));
        i += 1;
    }
    assert(v@.take(v.len() as int) =~= v@);
    r
}

/// Characters of a `String`.
pub fn chars_of_string(s: &String) -> (v: Vec<char>)
    ensures
        v@ == s@,
{
    chars_of(s.as_str())
}

pub fn is_whitespace(c: char) -> (b: bool)
    ensures
        b == is_ws(c),
{
    c == ' ' || ('\t' <= c && c <= '\r') || c == '\u{85}' || c == '\u{a0}' || c == '\u{1680}'
        || ('\u{2000}' <= c && c <= '\u{200a}') || c == '\u{2028}' || c == '\u{2029}'
        || c == '\u{202f}' || c == '\u{205f}' || c == '\u{3000}'
}

pub fn is_ascii_digit(c: char) -> (b: bool)
    ensures
        b == is_digit(c),
{
    '0' <= c && c <= '9'
}

/// Copy of `s[lo..hi]`.
pub fn slice(s: &Vec<char>, lo: usize, hi: usize) -> (r: Vec<char>)
    requires
        lo <= hi <= s.len(),
    ensures
        r@ == s@.subrange(lo as int, hi as int),
{
    let mut r: Vec<char> = Vec::new();
    let mut i = lo;
    while i < hi
        invariant
            lo <= i <= hi <= s.len(),
            r@ == s@.subrange(lo as int, i as int),
        decreases hi - i,
    {
        r.push(s[i]);
        assert(s@.subrange(lo as int, i as int).push(s@[i as int]) =~= s@.subrange(lo as int, i + 1));
        i += 1;
    }
    r
}

/// Concatenation of two character vectors.
pub fn concat(a: &Vec<char>, b: &Vec<char>) -> (r: Vec<char>)
    ensures
        r@ == a@ + b@,
{
    let mut r = a.clone();
    let mut i: usize = 0;
    while i < b.len()
        invariant
            i <= b.len(),
            r@ == a@ + b@.take(i as int),
        decreases b.len() - i,
    {
        r.push(b[i]);
        assert((a@ + b@.take(i as int)).push(b@[i as int]) =~= a@ + b@.take(i + 1));
        i += 1;
    }
    assert(b@.take(b.len() as int) =~= b@);
    r
}

/// Appends `b` to `a` in place.
pub fn append(a: &mut Vec<char>, b: &Vec<char>)
    ensures
        final(a)@ == old(a)@ + b@,
{
    let mut i: usize = 0;
    while i < b.len()
        invariant
            i <= b.len(),
            a@ == old(a)@ + b@.take(i as int),
        decreases b.len() - i,
    {
        a.push(b[i]);
        assert((old(a)@ + b@.take(i as int)).push(b@[i as int]) =~= old(a)@ + b@.take(i + 1));
        i += 1;
    }
    assert(b@.take(b.len() as int) =~= b@);
}

/// Appends the characters of a string slice in place.
pub fn append_str(a: &mut Vec<char>, b: &str)
    ensures
        final(a)@ == old(a)@ + b@,
{
    let bv = chars_of(b);
    append(a, &bv);
}

/// Characters equal as sequences.
pub fn eq(a: &Vec<char>, b: &Vec<char>) -> (r: bool)
    ensures
        r == (a@ == b@),
{
    if a.len() != b.len() {
        return false;
    }
    let mut i: usize = 0;
    while i < a.len()
        invariant
            i <= a.len() == b.len(),
            a@.take(i as int) == b@.take(i as int),
        decreases a.len() - i,
    {
        if a[i] != b[i] {
            assert(a@[i as int] != b@[i as int]);
            return false;
        }
        assert(a@.take(i + 1) =~= a@.take(i as int).push(a@[i as int]));
        assert(b@.take(i + 1) =~= b@.take(i as int).push(b@[i as int]));
        i += 1;
    }
    assert(a@.take(a.len() as int) =~= a@);
    assert(b@.take(b.len() as int) =~= b@);
    true
}

/// Whether `p` occurs in `s` at index `i`.
pub fn matches_at(s: &Vec<char>, p: &Vec<char>, i: usize) -> (r: bool)
    ensures
        r == occurs_at(s@, p@, i as int),
{
    if i > s.len() || p.len() > s.len() - i {
        return false;
    }
    let mut k: usize = 0;
    while k < p.len()
        invariant
            i + p.len() <= s.len(),
            k <= p.len(),
            s@.subrange(i as int, i + k) == p@.take(k as int),
        decreases p.len() - k,
    {
        if s[i + k] != p[k] {
            assert(s@.subrange(i as int, i + p.len())[k as int] != p@[k as int]);
            return false;
        }
        assert(s@.subrange(i as int, i + k + 1) =~= s@.subrange(i as int, i + k).push(s@[i + k]));
        assert(p@.take(k + 1) =~= p@.take(k as int).push(p@[k as int]));
        k += 1;
    }
    assert(p@.take(p.len() as int) =~= p@);
    true
}

pub fn starts_with_v(s: &Vec<char>, p: &Vec<char>) -> (r: bool)
    ensures
        r == starts_with(s@, p@),
{
    let r = matches_at(s, p, 0);
    assert(s@.subrange(0, p@.len() as int) =~= s@.take(p@.len() as int));
    r
}

pub fn ends_with_v(s: &Vec<char>, p: &Vec<char>) -> (r: bool)
    ensures
        r == ends_with(s@, p@),
{
    if p.len() > s.len() {
        return false;
    }
    let r = matches_at(s, p, s.len() - p.len());
    assert(s@.subrange(s.len() - p.len(), s.len() as int) =~= s@.skip(s.len() - p.len()));
    r
}

/// Whether `s` starts with the literal `p`.
pub fn starts_with_str(s: &Vec<char>, p: &str) -> (r: bool)
    ensures
        r == starts_with(s@, p@),
{
    let pv = chars_of(p);
    starts_with_v(s, &pv)
}

/// Whether `s` ends with the literal `p`.
pub fn ends_with_str(s: &Vec<char>, p: &str) -> (r: bool)
    ensures
        r == ends_with(s@, p@),
{
    let pv = chars_of(p);
    ends_with_v(s, &pv)
}

/// First occurrence of `p` in `s` at or after `from`.
pub fn find_from_v(s: &Vec<char>, p: &Vec<char>, from: usize) -> (r: Option<usize>)
    ensures
        match r {
            Some(k) => occurs_at(s@, p@, k as int) && find_from(s@, p@, from as int) == Some(k as int),
            None => find_from(s@, p@, from as int) is None,
        },
{
    proof {
        lemma_find_from_bounds(s@, p@, from as int);
    }
    let mut i = from;
    while i < s.len() && p.len() <= s.len() - i
        invariant
            from <= i,
            find_from(s@, p@, from as int) == find_from(s@, p@, i as int),
        decreases s.len() + 1 - i,
    {
        if matches_at(s, p, i) {
            return Some(i);
        }
        i += 1;
    }
    if i <= s.len() && matches_at(s, p, i) {
        assert(find_from(s@, p@, i as int) == Some(i as int));
        Some(i)
    } else {
        assert(find_from(s@, p@, i + 1) is None);
        None
    }
}

/// First occurrence of `p` in `s`.
pub fn find_v(s: &Vec<char>, p: &Vec<char>) -> (r: Option<usize>)
    ensures
        match r {
            Some(k) => occurs_at(s@, p@, k as int) && find(s@, p@) == Some(k as int),
            None => find(s@, p@) is None,
        },
{
    find_from_v(s, p, 0)
}

/// First occurrence of the literal `p` in `s`.
pub fn find_str(s: &Vec<char>, p: &str) -> (r: Option<usize>)
    ensures
        match r {
            Some(k) => occurs_at(s@, p@, k as int) && find(s@, p@) == Some(k as int),
            None => find(s@, p@) is None,
        },
{
    let pv = chars_of(p);
    find_v(s, &pv)
}

/// Whether `s` contains `p`.
pub fn contains_v(s: &Vec<char>, p: &Vec<char>) -> (r: bool)
    ensures
        r == contains(s@, p@),
{
    find_v(s, p).is_some()
}

/// Whether `s` contains the literal `p`.
pub fn contains_str(s: &Vec<char>, p: &str) -> (r: bool)
    ensures
        r == contains(s@, p@),
{
    find_str(s, p).is_some()
}

/// Whether `s` contains the character `c`.
pub fn contains_char(s: &Vec<char>, c: char) -> (r: bool)
    ensures
        r == contains(s@, seq![c]),
{
    let mut pv: Vec<char> = Vec::new();
    pv.push(c);
    assert(pv@ =~= seq![c]);
    contains_v(s, &pv)
}

/// First index of character `c`.
pub fn find_char_v(s: &Vec<char>, c: char) -> (r: Option<usize>)
    ensures
        match r {
            Some(k) => k < s@.len() && s@[k as int] == c && find_char(s@, c) == Some(k as int),
            None => find_char(s@, c) is None,
        },
{
    let mut pv: Vec<char> = Vec::new();
    pv.push(c);
    assert(pv@ =~= seq![c]);
    let r = find_v(s, &pv);
    if let Some(k) = r {
        proof {
            lemma_occurs_char(s@, c, k as int);
        }
    }
    r
}

/// Last occurrence of `p` in `s`.
pub fn rfind_v(s: &Vec<char>, p: &Vec<char>) -> (r: Option<usize>)
    ensures
        match r {
            Some(k) => occurs_at(s@, p@, k as int) && rfind(s@, p@) == Some(k as int),
            None => rfind(s@, p@) is None,
        },
{
    if p.len() > s.len() {
        proof {
            reveal_with_fuel(rfind_to, 1);
        }
        return None;
    }
    let mut i: usize = s.len() - p.len();
    loop
        invariant
            i <= s.len() - p.len(),
            p.len() <= s.len(),
            rfind(s@, p@) == rfind_to(s@, p@, i as int),
        decreases i,
    {
        if matches_at(s, p, i) {
            return Some(i);
        }
        if i == 0 {
            assert(rfind_to(s@, p@, -1) is None);
            return None;
        }
        i -= 1;
    }
}

/// Last occurrence of the literal `p` in `s`.
pub fn rfind_str(s: &Vec<char>, p: &str) -> (r: Option<usize>)
    ensures
        match r {
            Some(k) => occurs_at(s@, p@, k as int) && rfind(s@, p@) == Some(k as int),
            None => rfind(s@, p@) is None,
        },
{
    let pv = chars_of(p);
    rfind_v(s, &pv)
}

/// `s` without leading whitespace.
pub fn trim_start_v(s: &Vec<char>) -> (r: Vec<char>)
    ensures
        r@ == trim_start(s@),
{
    let mut i: usize = 0;
    assert(s@.skip(0) =~= s@);
    while i < s.len() && is_whitespace(s[i])
        invariant
            i <= s.len(),
            trim_start(s@) == trim_start(s@.skip(i as int)),
        decreases s.len() - i,
    {
        assert(s@.skip(i as int).drop_first() =~= s@.skip(i + 1));
        i += 1;
    }
    assert(s@.subrange(i as int, s.len() as int) =~= s@.skip(i as int));
    slice(s, i, s.len())
}

/// `s` without trailing whitespace.
pub fn trim_end_v(s: &Vec<char>) -> (r: Vec<char>)
    ensures
        r@ == trim_end(s@),
{
    let mut j: usize = s.len();
    assert(s@.take(s.len() as int) =~= s@);
    while j > 0 && is_whitespace(s[j - 1])
        invariant
            j <= s.len(),
            trim_end(s@) == trim_end(s@.take(j as int)),
        decreases j,
    {
        assert(s@.take(j as int).drop_last() =~= s@.take(j - 1));
        j -= 1;
    }
    assert(s@.subrange(0, j as int) =~= s@.take(j as int));
    slice(s, 0, j)
}

/// `s` without whitespace at either end.
pub fn trim_v(s: &Vec<char>) -> (r: Vec<char>)
    ensures
        r@ == trim(s@),
{
    let a = trim_start_v(s);
    trim_end_v(&a)
}

/// The lines of `s` (see `lines`).
pub fn lines_v(s: &Vec<char>) -> (r: Vec<Vec<char>>)
    ensures
        r@.len() == lines(s@).len(),
        forall|k: int| 0 <= k < r@.len() ==> #[trigger] r@[k]@ == lines(s@)[k],
{
    let mut out: Vec<Vec<char>> = Vec::new();
    let mut pos: usize = 0;
    let ghost mut done: Seq<Seq<char>> = seq![];
    assert(s@.skip(0) =~= s@);
    assert(seq![] + lines(s@) =~= lines(s@));
    while pos < s.len()
        invariant
            pos <= s.len(),
            out@.len() == done.len(),
            forall|k: int| 0 <= k < out@.len() ==> #[trigger] out@[k]@ == done[k],
            lines(s@) == done + lines(s@.skip(pos as int)),
        decreases s.len() - pos,
    {
        let ghost rest = s@.skip(pos as int);
        let mut e = pos;
        while e < s.len() && s[e] != '\n'
            invariant
                pos <= e <= s.len(),
                rest == s@.skip(pos as int),
                forall|j: int| pos <= j < e ==> s@[j] != '\n',
            decreases s.len() - e,
        {
            e += 1;
        }
        let mut line_end = e;
        if line_end > pos && s[line_end - 1] == '\r' && e < s.len() {
            line_end -= 1;
        }
        let line = slice(s, pos, line_end);
        proof {
            if e < s.len() {
                let k = (e - pos) as int;
                lemma_occurs_char(rest, '\n', k);
                lemma_find_from_bounds(rest, seq!['\n'], 0);
                let f = find_char(rest, '\n');
                assert(f is Some);
                let kk = f->0;
                lemma_occurs_char(rest, '\n', kk);
                assert(rest[kk] == s@[pos + kk]);
                assert(kk == k);
                assert(rest.take(k) =~= s@.subrange(pos as int, e as int));
                assert(rest.skip(k + 1) =~= s@.skip(e + 1));
                assert(line@ =~= strip_cr(rest.take(k)));
            } else {
                lemma_find_from_bounds(rest, seq!['\n'], 0);
                if find_char(rest, '\n') is Some {
                    let kk = find_char(rest, '\n')->0;
                    lemma_occurs_char(rest, '\n', kk);
                    assert(rest[kk] == s@[pos + kk]);
                }
                assert(find_char(rest, '\n') is None);
                assert(line@ =~= rest);
            }
        }
        out.push(line);
        proof {
            done = done.push(line@);
        }
        if e < s.len() {
            pos = e + 1;
        } else {
            pos = e;
        }
        proof {
            if e >= s.len() {
                assert(s@.skip(pos as int) =~= seq![]);
            }
        }
    }
    proof {
        assert(s@.skip(pos as int) =~= seq![]);
        assert(done + seq![] =~= done);
    }
    out
}

/// The lines of a string slice.
pub fn lines_of(s: &str) -> (r: Vec<Vec<char>>)
    ensures
        r@.len() == lines(s@).len(),
        forall|k: int| 0 <= k < r@.len() ==> #[trigger] r@[k]@ == lines(s@)[k],
{
    let v = chars_of(s);
    lines_v(&v)
}

/// `parts` joined with `sep` between consecutive parts.
pub fn join_v(parts: &Vec<Vec<char>>, sep: &Vec<char>) -> (r: Vec<char>)
    ensures
        r@ == join(parts@.map_values(|p: Vec<char>| p@), sep@),
{
    let ghost ps = parts@.map_values(|p: Vec<char>| p@);
    let mut r: Vec<char> = Vec::new();
    let mut i: usize = 0;
    while i < parts.len()
        invariant
            i <= parts.len(),
            ps == parts@.map_values(|p: Vec<char>| p@),
            r@ == join(ps.take(i as int), sep@),
        decreases parts.len() - i,
    {
        assert(ps.take(i + 1).drop_last() =~= ps.take(i as int));
        if i > 0 {
            append(&mut r, sep);
        }
        append(&mut r, &parts[i]);
        proof {
            if i == 0 {
                assert(ps.take(1) =~= seq![parts@[0]@]);
                assert(r@ =~= ps.take(1)[0]);
            }
        }
        i += 1;
    }
    assert(ps.take(parts.len() as int) =~= ps);
    r
}

/// Number of lines containing `p`.
pub fn count_lines_containing(ls: &Vec<Vec<char>>, p: &Vec<char>) -> (n: usize)
    ensures
        n == count_containing(ls@.map_values(|l: Vec<char>| l@), p@),
{
    let ghost lv = ls@.map_values(|l: Vec<char>| l@);
    let mut n: usize = 0;
    let mut i: usize = 0;
    while i < ls.len()
        invariant
            i <= ls.len(),
            lv == ls@.map_values(|l: Vec<char>| l@),
            n == count_containing(lv.take(i as int), p@),
            n <= i,
        decreases ls.len() - i,
    {
        assert(lv.take(i + 1).drop_last() =~= lv.take(i as int));
        if contains_v(&ls[i], p) {
            n += 1;
        }
        i += 1;
    }
    assert(lv.take(ls.len() as int) =~= lv);
    n
}


pub proof fn lemma_split_nonempty(s: Seq<char>, c: char)
    ensures
        split_char(s, c).len() >= 1,
    decreases s.len(),
{
    if let Some(i) = find_char(s, c) {
        lemma_find_from_bounds(s, seq![c], 0);
        lemma_split_nonempty(s.skip(i + 1), c);
    }
}

/// The pieces of `s` between occurrences of `c` (see `split_char`).
pub fn split_char_v(s: &Vec<char>, c: char) -> (r: Vec<Vec<char>>)
    ensures
        r@.map_values(|p: Vec<char>| p@) == split_char(s@, c),
{
    let mut out: Vec<Vec<char>> = Vec::new();
    let mut rest = slice(s, 0, s.len());
    assert(rest@ =~= s@);
    assert(seq![] + split_char(s@, c) =~= split_char(s@, c));
    loop
        invariant
            out@.map_values(|p: Vec<char>| p@) + split_char(rest@, c) == split_char(s@, c),
        decreases rest@.len(),
    {
        match find_char_v(&rest, c) {
            None => {
                let ghost before = out@.map_values(|p: Vec<char>| p@);
                let ghost rv = rest@;
                out.push(rest);
                assert(out@.map_values(|p: Vec<char>| p@) =~= before.push(rv));
                assert(before + split_char(rv, c) =~= before.push(rv));
                return out;
            },
            Some(k) => {
                let piece = slice(&rest, 0, k);
                let next = slice(&rest, k + 1, rest.len());
                let ghost before = out@.map_values(|p: Vec<char>| p@);
                let ghost rv = rest@;
                assert(piece@ =~= rv.take(k as int));
                assert(next@ =~= rv.skip(k + 1));
                out.push(piece);
                assert(out@.map_values(|p: Vec<char>| p@) =~= before.push(piece@));
                assert(before + split_char(rv, c) =~= before.push(piece@) + split_char(next@, c));
                rest = next;
            },
        }
    }
}


/// Length of the run of non-whitespace characters at the start of `s`.
pub open spec fn word_len(s: Seq<char>) -> nat
    decreases s.len(),
{
    if s.len() > 0 && !is_ws(s[0]) { 1 + word_len(s.drop_first()) } else { 0 }
}

pub proof fn lemma_word_len(s: Seq<char>)
    ensures
        word_len(s) <= s.len(),
        s.len() > 0 && !is_ws(s[0]) ==> word_len(s) >= 1,
        forall|j: int| 0 <= j < word_len(s) ==> !is_ws(#[trigger] s[j]),
        word_len(s) < s.len() ==> is_ws(s[word_len(s) as int]),
    decreases s.len(),
{
    if s.len() > 0 && !is_ws(s[0]) {
        lemma_word_len(s.drop_first());
        assert forall|j: int| 0 <= j < word_len(s) implies !is_ws(#[trigger] s[j]) by {
            if j > 0 {
                assert(s[j] == s.drop_first()[j - 1]);
            }
        }
        if word_len(s) < s.len() {
            assert(s[word_len(s) as int] == s.drop_first()[word_len(s.drop_first()) as int]);
        }
    }
}

/// The whitespace-separated words of `s` (`str::split_whitespace`).
pub open spec fn words(s: Seq<char>) -> Seq<Seq<char>>
    decreases s.len(),
{
    let t = trim_start(s);
    if t.len() == 0 {
        seq![]
    } else {
        proof {
            lemma_trim_start_is_suffix(s);
            lemma_word_len(t);
        }
        seq![t.take(word_len(t) as int)] + words(t.skip(word_len(t) as int))
    }
}

/// The whitespace-separated words of `s`.
pub fn words_v(s: &Vec<char>) -> (r: Vec<Vec<char>>)
    ensures
        r@.map_values(|p: Vec<char>| p@) == words(s@),
{
    let mut out: Vec<Vec<char>> = Vec::new();
    let mut rest = slice(s, 0, s.len());
    assert(rest@ =~= s@);
    assert(seq![] + words(s@) =~= words(s@));
    loop
        invariant
            out@.map_values(|p: Vec<char>| p@) + words(rest@) == words(s@),
        decreases rest@.len(),
    {
        let t = trim_start_v(&rest);
        proof {
            lemma_trim_start_is_suffix(rest@);
            lemma_word_len(t@);
        }
        if t.len() == 0 {
            assert(words(rest@) =~= seq![]);
            assert(out@.map_values(|p: Vec<char>| p@) + seq![] =~= out@.map_values(|p: Vec<char>| p@));
            return out;
        }
        let mut k: usize = 0;
        assert(t@.skip(0) =~= t@);
        while k < t.len() && !is_whitespace(t[k])
            invariant
                k <= t.len(),
                word_len(t@) == k + word_len(t@.skip(k as int)),
            decreases t.len() - k,
        {
            assert(t@.skip(k as int).drop_first() =~= t@.skip(k + 1));
            k += 1;
        }
        assert(t@.skip(0) =~= t@);
        let w = slice(&t, 0, k);
        let next = slice(&t, k, t.len());
        assert(w@ =~= t@.take(word_len(t@) as int));
        assert(next@ =~= t@.skip(word_len(t@) as int));
        let ghost before = out@.map_values(|p: Vec<char>| p@);
        out.push(w);
        assert(out@.map_values(|p: Vec<char>| p@) =~= before.push(w@));
        assert(before + words(rest@) =~= before.push(w@) + words(next@));
        rest = next;
    }
}

/// `s` without any trailing occurrences of `c`.
pub open spec fn trim_end_char(s: Seq<char>, c: char) -> Seq<char>
    decreases s.len(),
{
    if s.len() > 0 && s.last() == c { trim_end_char(s.drop_last(), c) } else { s }
}

/// `s` without any leading occurrences of `c`.
pub open spec fn trim_start_char(s: Seq<char>, c: char) -> Seq<char>
    decreases s.len(),
{
    if s.len() > 0 && s[0] == c { trim_start_char(s.drop_first(), c) } else { s }
}

/// `s` without occurrences of `c` at either end (`str::trim_matches`).
pub open spec fn trim_char(s: Seq<char>, c: char) -> Seq<char> {
    trim_end_char(trim_start_char(s, c), c)
}

pub fn trim_end_char_v(s: &Vec<char>, c: char) -> (r: Vec<char>)
    ensures
        r@ == trim_end_char(s@, c),
{
    let mut j: usize = s.len();
    assert(s@.take(s.len() as int) =~= s@);
    while j > 0 && s[j - 1] == c
        invariant
            j <= s.len(),
            trim_end_char(s@, c) == trim_end_char(s@.take(j as int), c),
        decreases j,
    {
        assert(s@.take(j as int).drop_last() =~= s@.take(j - 1));
        j -= 1;
    }
    let r = slice(s, 0, j);
    assert(r@ =~= s@.take(j as int));
    r
}

pub fn trim_char_v(s: &Vec<char>, c: char) -> (r: Vec<char>)
    ensures
        r@ == trim_char(s@, c),
{
    let mut i: usize = 0;
    assert(s@.skip(0) =~= s@);
    while i < s.len() && s[i] == c
        invariant
            i <= s.len(),
            trim_start_char(s@, c) == trim_start_char(s@.skip(i as int), c),
        decreases s.len() - i,
    {
        assert(s@.skip(i as int).drop_first() =~= s@.skip(i + 1));
        i += 1;
    }
    let a = slice(s, i, s.len());
    assert(a@ =~= s@.skip(i as int));
    trim_end_char_v(&a, c)
}

/// Length of the leading run of characters of `s` satisfying `digit or '.'`.
pub open spec fn num_prefix_len(s: Seq<char>) -> nat
    decreases s.len(),
{
    if s.len() > 0 && (is_digit(s[0]) || s[0] == '.') { 1 + num_prefix_len(s.drop_first()) } else { 0 }
}

pub proof fn lemma_num_prefix_len(s: Seq<char>)
    ensures
        num_prefix_len(s) <= s.len(),
    decreases s.len(),
{
    if s.len() > 0 && (is_digit(s[0]) || s[0] == '.') {
        lemma_num_prefix_len(s.drop_first());
    }
}

/// The leading digits and dots of `s`.
pub fn num_prefix(s: &Vec<char>) -> (r: Vec<char>)
    ensures
        r@ == s@.take(num_prefix_len(s@) as int),
{
    let mut k: usize = 0;
    assert(s@.skip(0) =~= s@);
    while k < s.len() && (is_ascii_digit(s[k]) || s[k] == '.')
        invariant
            k <= s.len(),
            num_prefix_len(s@) == k + num_prefix_len(s@.skip(k as int)),
        decreases s.len() - k,
    {
        assert(s@.skip(k as int).drop_first() =~= s@.skip(k + 1));
        k += 1;
    }
    let r = slice(s, 0, k);
    assert(r@ =~= s@.take(k as int));
    r
}


/// `s` without leading and trailing characters that occur in `cs`.
pub open spec fn trim_any(s: Seq<char>, cs: Seq<char>) -> Seq<char> {
    trim_any_end(trim_any_start(s, cs), cs)
}

pub open spec fn trim_any_start(s: Seq<char>, cs: Seq<char>) -> Seq<char>
    decreases s.len(),
{
    if s.len() > 0 && cs.contains(s[0]) { trim_any_start(s.drop_first(), cs) } else { s }
}

pub open spec fn trim_any_end(s: Seq<char>, cs: Seq<char>) -> Seq<char>
    decreases s.len(),
{
    if s.len() > 0 && cs.contains(s.last()) { trim_any_end(s.drop_last(), cs) } else { s }
}

fn in_set(c: char, cs: &Vec<char>) -> (b: bool)
    ensures
        b == cs@.contains(c),
{
    let mut i: usize = 0;
    while i < cs.len()
        invariant
            i <= cs.len(),
            forall|k: int| 0 <= k < i ==> cs@[k] != c,
        decreases cs.len() - i,
    {
        if cs[i] == c {
            assert(cs@[i as int] == c);
            return true;
        }
        i += 1;
    }
    false
}

/// `s` without leading and trailing characters of `cs`.
pub fn trim_any_v(s: &Vec<char>, cs: &Vec<char>) -> (r: Vec<char>)
    ensures
        r@ == trim_any(s@, cs@),
{
    let mut i: usize = 0;
    assert(s@.skip(0) =~= s@);
    while i < s.len() && in_set(s[i], cs)
        invariant
            i <= s.len(),
            trim_any_start(s@, cs@) == trim_any_start(s@.skip(i as int), cs@),
        decreases s.len() - i,
    {
        assert(s@.skip(i as int).drop_first() =~= s@.skip(i + 1));
        i += 1;
    }
    let a = slice(s, i, s.len());
    assert(a@ =~= s@.skip(i as int));
    let mut j: usize = a.len();
    assert(a@.take(a.len() as int) =~= a@);
    while j > 0 && in_set(a[j - 1], cs)
        invariant
            j <= a.len(),
            trim_any_end(a@, cs@) == trim_any_end(a@.take(j as int), cs@),
        decreases j,
    {
        assert(a@.take(j as int).drop_last() =~= a@.take(j - 1));
        j -= 1;
    }
    let r = slice(&a, 0, j);
    assert(r@ =~= a@.take(j as int));
    r
}

} // verus!
