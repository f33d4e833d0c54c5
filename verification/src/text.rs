//! Character-sequence primitives shared by the manifest parsers.
//!
//! Text is handled as `Vec<char>`; every operation states its result over
//! `Seq<char>` so that the parsers built on top can be specified the same way.
use vstd::prelude::*;

verus! {

// ---------------------------------------------------------------------------
// Specifications
// ---------------------------------------------------------------------------

/// The views of a sequence of character vectors.
pub open spec fn views(v: Seq<Vec<char>>) -> Seq<Seq<char>> {
    v.map_values(|x: Vec<char>| x@)
}

/// Unicode `White_Space`, the property behind `char::is_whitespace`.
pub open spec fn is_ws(c: char) -> bool {
    let u = c as u32;
    ||| 9 <= u <= 13
    ||| u == 32
    ||| u == 0x85
    ||| u == 0xA0
    ||| u == 0x1680
    ||| 0x2000 <= u <= 0x200A
    ||| u == 0x2028
    ||| u == 0x2029
    ||| u == 0x202F
    ||| u == 0x205F
    ||| u == 0x3000
}

/// `s` without its leading whitespace.
pub open spec fn trim_start(s: Seq<char>) -> Seq<char>
    decreases s.len(),
{
    if s.len() > 0 && is_ws(s[0]) {
        trim_start(s.drop_first())
    } else {
        s
    }
}

/// `s` without its trailing whitespace.
pub open spec fn trim_end(s: Seq<char>) -> Seq<char>
    decreases s.len(),
{
    if s.len() > 0 && is_ws(s.last()) {
        trim_end(s.drop_last())
    } else {
        s
    }
}

/// `s` without leading and trailing whitespace (`str::trim`).
pub open spec fn trim(s: Seq<char>) -> Seq<char> {
    trim_end(trim_start(s))
}

/// `s` without any leading or trailing occurrence of `c` (`str::trim_matches`).
pub open spec fn trim_char(s: Seq<char>, c: char) -> Seq<char> {
    trim_char_end(trim_char_start(s, c), c)
}

pub open spec fn trim_char_start(s: Seq<char>, c: char) -> Seq<char>
    decreases s.len(),
{
    if s.len() > 0 && s[0] == c {
        trim_char_start(s.drop_first(), c)
    } else {
        s
    }
}

pub open spec fn trim_char_end(s: Seq<char>, c: char) -> Seq<char>
    decreases s.len(),
{
    if s.len() > 0 && s.last() == c {
        trim_char_end(s.drop_last(), c)
    } else {
        s
    }
}

/// `p` occurs in `s` at position `i`.
pub open spec fn matches_at(s: Seq<char>, p: Seq<char>, i: int) -> bool {
    0 <= i && i + p.len() <= s.len() && s.subrange(i, i + p.len()) == p
}

pub open spec fn starts_with(s: Seq<char>, p: Seq<char>) -> bool {
    matches_at(s, p, 0)
}

pub open spec fn ends_with(s: Seq<char>, p: Seq<char>) -> bool {
    p.len() <= s.len() && matches_at(s, p, s.len() - p.len())
}

/// The first position at or after `i` where `p` occurs in `s`.
pub open spec fn find_from(s: Seq<char>, p: Seq<char>, i: int) -> Option<int>
    decreases s.len() + 1 - i,
{
    if i < 0 || i + p.len() > s.len() {
        None
    } else if s.subrange(i, i + p.len()) == p {
        Some(i)
    } else {
        find_from(s, p, i + 1)
    }
}

/// The first position where `p` occurs in `s` (`str::find`, counted in chars).
pub open spec fn find(s: Seq<char>, p: Seq<char>) -> Option<int> {
    find_from(s, p, 0)
}

pub open spec fn contains(s: Seq<char>, p: Seq<char>) -> bool {
    find(s, p) is Some
}

pub open spec fn has_char(s: Seq<char>, c: char) -> bool {
    exists|i: int| 0 <= i < s.len() && s[i] == c
}

/// The pieces of `s` between the separators `sep` (`str::split` with a char),
/// `cur` being the piece collected so far.
pub open spec fn split_acc(s: Seq<char>, sep: char, cur: Seq<char>) -> Seq<Seq<char>>
    decreases s.len(),
{
    if s.len() == 0 {
        seq![cur]
    } else if s[0] == sep {
        seq![cur] + split_acc(s.drop_first(), sep, Seq::empty())
    } else {
        split_acc(s.drop_first(), sep, cur.push(s[0]))
    }
}

pub open spec fn split(s: Seq<char>, sep: char) -> Seq<Seq<char>> {
    split_acc(s, sep, Seq::empty())
}

/// The maximal runs of non-whitespace characters of `s`
/// (`str::split_whitespace`), `cur` being the run collected so far.
pub open spec fn words_acc(s: Seq<char>, cur: Seq<char>) -> Seq<Seq<char>>
    decreases s.len(),
{
    if s.len() == 0 {
        if cur.len() > 0 {
            seq![cur]
        } else {
            Seq::empty()
        }
    } else if is_ws(s[0]) {
        (if cur.len() > 0 {
            seq![cur]
        } else {
            Seq::empty()
        }) + words_acc(s.drop_first(), Seq::empty())
    } else {
        words_acc(s.drop_first(), cur.push(s[0]))
    }
}

pub open spec fn words(s: Seq<char>) -> Seq<Seq<char>> {
    words_acc(s, Seq::empty())
}

/// A line ended by a line feed loses one carriage return before it.
pub open spec fn strip_cr(l: Seq<char>) -> Seq<char> {
    if l.len() > 0 && l.last() == '\r' {
        l.drop_last()
    } else {
        l
    }
}

/// The lines of `s` (`str::lines`), `cur` being the line collected so far.
pub open spec fn lines_acc(s: Seq<char>, cur: Seq<char>) -> Seq<Seq<char>>
    decreases s.len(),
{
    if s.len() == 0 {
        if cur.len() > 0 {
            seq![cur]
        } else {
            Seq::empty()
        }
    } else if s[0] == '\n' {
        seq![strip_cr(cur)] + lines_acc(s.drop_first(), Seq::empty())
    } else {
        lines_acc(s.drop_first(), cur.push(s[0]))
    }
}

pub open spec fn lines(s: Seq<char>) -> Seq<Seq<char>> {
    lines_acc(s, Seq::empty())
}

/// `s` without the prefix `p`, when it has it.
pub open spec fn strip_prefix(s: Seq<char>, p: Seq<char>) -> Option<Seq<char>> {
    if starts_with(s, p) {
        Some(s.subrange(p.len() as int, s.len() as int))
    } else {
        None
    }
}

/// `s` without the suffix `p`, when it has it.
pub open spec fn strip_suffix(s: Seq<char>, p: Seq<char>) -> Option<Seq<char>> {
    if ends_with(s, p) {
        Some(s.subrange(0, s.len() - p.len()))
    } else {
        None
    }
}

/// The pieces of `s` before and after the first `p` (`str::split_once`).
pub open spec fn split_once(s: Seq<char>, p: Seq<char>) -> Option<(Seq<char>, Seq<char>)> {
    match find(s, p) {
        Some(i) => Some((s.subrange(0, i), s.subrange(i + p.len(), s.len() as int))),
        None => None,
    }
}

/// Join `parts` with `sep` between consecutive parts.
pub open spec fn join(parts: Seq<Seq<char>>, sep: Seq<char>) -> Seq<char>
    decreases parts.len(),
{
    if parts.len() == 0 {
        Seq::empty()
    } else if parts.len() == 1 {
        parts[0]
    } else {
        join(parts.drop_last(), sep) + sep + parts.last()
    }
}

pub open spec fn ascii_lower_char(c: char) -> char {
    if 'A' <= c <= 'Z' {
        ((c as u8) + 32) as char
    } else {
        c
    }
}

/// ASCII case-insensitive equality (`str::eq_ignore_ascii_case`).
pub open spec fn eq_ignore_ascii_case(a: Seq<char>, b: Seq<char>) -> bool {
    a.len() == b.len() && forall|i: int|
        0 <= i < a.len() ==> #[trigger] ascii_lower_char(a[i]) == ascii_lower_char(b[i])
}

/// Result of `str::to_uppercase`: the full Unicode uppercase mapping.
pub uninterp spec fn unicode_uppercase(s: Seq<char>) -> Seq<char>;

/// Result of `str::to_lowercase`: the full Unicode lowercase mapping.
pub uninterp spec fn unicode_lowercase(s: Seq<char>) -> Seq<char>;

/// Every character of `s` is ASCII.
pub open spec fn is_ascii_text(s: Seq<char>) -> bool {
    forall|i: int| 0 <= i < s.len() ==> (#[trigger] s[i] as u32) < 128
}

/// The ASCII uppercase form of a character (`char::to_ascii_uppercase`).
pub open spec fn ascii_upper_char(c: char) -> char {
    if 'a' <= c <= 'z' {
        ((c as u8) - 32) as char
    } else {
        c
    }
}

/// The ASCII uppercase form of `s` (`str::to_ascii_uppercase`).
pub open spec fn ascii_uppercase(s: Seq<char>) -> Seq<char> {
    s.map_values(|c: char| ascii_upper_char(c))
}

/// The ASCII lowercase form of `s` (`str::to_ascii_lowercase`).
pub open spec fn ascii_lowercase(s: Seq<char>) -> Seq<char> {
    s.map_values(|c: char| ascii_lower_char(c))
}

/// The uppercase form of `s` (`str::to_uppercase`): on ASCII text its
/// ASCII uppercase form, on other text the Unicode mapping.
#[verifier::opaque]
pub open spec fn uppercase(s: Seq<char>) -> Seq<char> {
    if is_ascii_text(s) {
        ascii_uppercase(s)
    } else {
        unicode_uppercase(s)
    }
}

/// The lowercase form of `s` (`str::to_lowercase`): on ASCII text its
/// ASCII lowercase form, on other text the Unicode mapping.
#[verifier::opaque]
pub open spec fn lowercase(s: Seq<char>) -> Seq<char> {
    if is_ascii_text(s) {
        ascii_lowercase(s)
    } else {
        unicode_lowercase(s)
    }
}

/// Result of `char::is_alphanumeric`: Unicode `Alphabetic` or `Numeric`.
pub uninterp spec fn unicode_alphanumeric(c: char) -> bool;

// ---------------------------------------------------------------------------
// Trusted calls into std
// ---------------------------------------------------------------------------

/// `String::push`: appends one character.
#[verifier::external_body]
pub(crate) fn push_char(s: &mut String, c: char)
    ensures
        final(s)@ == old(s)@.push(c),
{
    s.push(c);
}

/// `str::to_uppercase`: the uppercase form of `s`. std documents that it
/// uppercases the ASCII characters as `to_ascii_uppercase` does and the
/// other characters too, so on ASCII text the result is the ASCII
/// uppercase form; on other text it is named `unicode_uppercase`, the
/// Unicode tables not being written out here.
#[verifier::external_body]
fn str_to_uppercase(s: &str) -> (r: String)
    ensures
        is_ascii_text(s@) ==> r@ == ascii_uppercase(s@),
        !is_ascii_text(s@) ==> r@ == unicode_uppercase(s@),
{
    s.to_uppercase()
}

/// `str::to_lowercase`: the lowercase form of `s`. std documents that it
/// lowercases the ASCII characters as `to_ascii_lowercase` does and the
/// other characters too, so on ASCII text the result is the ASCII
/// lowercase form; on other text it is named `unicode_lowercase`, the
/// Unicode tables not being written out here.
#[verifier::external_body]
fn str_to_lowercase(s: &str) -> (r: String)
    ensures
        is_ascii_text(s@) ==> r@ == ascii_lowercase(s@),
        !is_ascii_text(s@) ==> r@ == unicode_lowercase(s@),
{
    s.to_lowercase()
}

/// `char::is_alphanumeric`, named `unicode_alphanumeric`; the Unicode
/// property tables are not written out here.
#[verifier::external_body]
pub(crate) fn char_is_alphanumeric(c: char) -> (b: bool)
    ensures
        b == unicode_alphanumeric(c),
{
    c.is_alphanumeric()
}

// ---------------------------------------------------------------------------
// Conversions
// ---------------------------------------------------------------------------

/// The characters of `s`.
pub fn to_chars(s: &str) -> (v: Vec<char>)
    ensures
        v@ == s@,
{
    let mut v: Vec<char> = Vec::new();
    for c in it: s.chars()
        invariant
            it.seq() == s@,
            v@ == it.seq().take(it.index() as int),
    {
        v.push(c);
    }
    v
}

/// A `String` holding the characters of `v`.
pub fn from_chars(v: &[char]) -> (s: String)
    ensures
        s@ == v@,
{
    let mut s = String::new();
    let mut i: usize = 0;
    while i < v.len()
        invariant
            i <= v.len(),
            s@ == v@.take(i as int),
        decreases v.len() - i,
    {
        push_char(&mut s, v[i]);
        i += 1;
        assert(v@.take(i as int) =~= v@.take(i - 1).push(v@[i - 1]));
    }
    assert(v@.take(v.len() as int) =~= v@);
    s
}

/// Append the characters of `t` to `s`.
pub fn push_all(s: &mut String, t: &[char])
    ensures
        final(s)@ == old(s)@ + t@,
{
    let mut i: usize = 0;
    while i < t.len()
        invariant
            i <= t.len(),
            s@ == old(s)@ + t@.take(i as int),
        decreases t.len() - i,
    {
        push_char(s, t[i]);
        i += 1;
        assert(t@.take(i as int) =~= t@.take(i - 1).push(t@[i - 1]));
    }
    assert(t@.take(t.len() as int) =~= t@);
}

/// The Unicode uppercase form of `v`.
pub fn to_uppercase(v: &[char]) -> (r: Vec<char>)
    ensures
        r@ == uppercase(v@),
{
    let s = from_chars(v);
    let u = str_to_uppercase(s.as_str());
    proof {
        reveal(uppercase);
    }
    to_chars(u.as_str())
}

/// The Unicode lowercase form of `v`.
pub fn to_lowercase(v: &[char]) -> (r: Vec<char>)
    ensures
        r@ == lowercase(v@),
{
    let s = from_chars(v);
    let l = str_to_lowercase(s.as_str());
    proof {
        reveal(lowercase);
    }
    to_chars(l.as_str())
}

// ---------------------------------------------------------------------------
// Operations
// ---------------------------------------------------------------------------

/// `v[i..j]` as a new vector.
pub fn slice(v: &[char], i: usize, j: usize) -> (r: Vec<char>)
    requires
        i <= j <= v.len(),
    ensures
        r@ == v@.subrange(i as int, j as int),
{
    let mut r: Vec<char> = Vec::new();
    let mut k = i;
    while k < j
        invariant
            i <= k <= j,
            j <= v.len(),
            r@ == v@.subrange(i as int, k as int),
        decreases j - k,
    {
        r.push(v[k]);
        k += 1;
        assert(v@.subrange(i as int, k as int) =~= v@.subrange(i as int, k - 1).push(v@[k - 1]));
    }
    r
}

/// A copy of `v`.
pub fn copy(v: &[char]) -> (r: Vec<char>)
    ensures
        r@ == v@,
{
    let r = slice(v, 0, v.len());
    assert(v@.subrange(0, v@.len() as int) =~= v@);
    r
}

pub fn is_whitespace(c: char) -> (b: bool)
    ensures
        b == is_ws(c),
{
    let u = c as u32;
    (9 <= u && u <= 13) || u == 32 || u == 0x85 || u == 0xA0 || u == 0x1680 || (0x2000 <= u && u
        <= 0x200A) || u == 0x2028 || u == 0x2029 || u == 0x202F || u == 0x205F || u == 0x3000
}

proof fn lemma_trim_start_step(s: Seq<char>, i: int)
    requires
        0 <= i < s.len(),
        is_ws(s[i]),
    ensures
        trim_start(s.skip(i)) == trim_start(s.skip(i + 1)),
{
    assert(s.skip(i).drop_first() =~= s.skip(i + 1));
}

proof fn lemma_trim_end_step(s: Seq<char>, j: int)
    requires
        0 < j <= s.len(),
        is_ws(s[j - 1]),
    ensures
        trim_end(s.take(j)) == trim_end(s.take(j - 1)),
{
    assert(s.take(j).drop_last() =~= s.take(j - 1));
}

/// The bounds of `trim(v)` inside `v`.
pub fn trim_bounds(v: &[char]) -> (r: (usize, usize))
    ensures
        r.0 <= r.1 <= v.len(),
        v@.subrange(r.0 as int, r.1 as int) == trim(v@),
{
    let mut i: usize = 0;
    assert(v@.skip(0) =~= v@);
    while i < v.len() && is_whitespace(v[i])
        invariant
            i <= v.len(),
            trim_start(v@) == trim_start(v@.skip(i as int)),
        decreases v.len() - i,
    {
        proof {
            lemma_trim_start_step(v@, i as int);
        }
        i += 1;
    }
    let ghost t = v@.skip(i as int);
    assert(trim_start(v@) == t);
    let mut j: usize = v.len();
    assert(t.take(j - i) =~= t);
    while j > i && is_whitespace(v[j - 1])
        invariant
            i <= j <= v.len(),
            t == v@.skip(i as int),
            trim_end(t) == trim_end(t.take(j - i)),
        decreases j,
    {
        proof {
            lemma_trim_end_step(t, j - i);
        }
        j -= 1;
    }
    assert(t.take(j - i) =~= v@.subrange(i as int, j as int));
    (i, j)
}

/// `str::trim`.
pub fn trim_chars(v: &[char]) -> (r: Vec<char>)
    ensures
        r@ == trim(v@),
{
    let (i, j) = trim_bounds(v);
    slice(v, i, j)
}

/// `v == lit`.
pub fn eq_lit(v: &[char], lit: &str) -> (b: bool)
    ensures
        b == (v@ == lit@),
{
    let l = to_chars(lit);
    eq_chars(v, &l)
}

/// `a == b`.
pub fn eq_chars(a: &[char], b: &[char]) -> (r: bool)
    ensures
        r == (a@ == b@),
{
    if a.len() != b.len() {
        return false;
    }
    let mut i: usize = 0;
    while i < a.len()
        invariant
            i <= a.len(),
            a.len() == b.len(),
            forall|k: int| 0 <= k < i ==> a@[k] == b@[k],
        decreases a.len() - i,
    {
        if a[i] != b[i] {
            return false;
        }
        i += 1;
    }
    assert(a@ =~= b@);
    true
}

/// `p` occurs in `v` at position `i`.
pub fn matches_at_chars(v: &[char], p: &[char], i: usize) -> (b: bool)
    ensures
        b == matches_at(v@, p@, i as int),
{
    if i > v.len() || p.len() > v.len() - i {
        return false;
    }
    let mut k: usize = 0;
    while k < p.len()
        invariant
            k <= p.len(),
            i + p.len() <= v.len(),
            forall|m: int| 0 <= m < k ==> v@[i + m] == p@[m],
        decreases p.len() - k,
    {
        if v[i + k] != p[k] {
            assert(v@.subrange(i as int, i + p.len())[k as int] != p@[k as int]);
            return false;
        }
        k += 1;
    }
    assert(v@.subrange(i as int, i + p.len()) =~= p@);
    true
}

pub fn starts_with_lit(v: &[char], lit: &str) -> (b: bool)
    ensures
        b == starts_with(v@, lit@),
{
    let p = to_chars(lit);
    matches_at_chars(v, &p, 0)
}

pub fn ends_with_lit(v: &[char], lit: &str) -> (b: bool)
    ensures
        b == ends_with(v@, lit@),
{
    let p = to_chars(lit);
    if p.len() > v.len() {
        return false;
    }
    matches_at_chars(v, &p, v.len() - p.len())
}

/// The first position of `p` in `v` at or after `from`.
pub fn find_chars_from(v: &[char], p: &[char], from: usize) -> (r: Option<usize>)
    ensures
        match r {
            Some(i) => find_from(v@, p@, from as int) == Some(i as int),
            None => find_from(v@, p@, from as int) is None,
        },
{
    let mut i = from;
    while i <= v.len() && p.len() <= v.len() - i
        invariant
            from <= i,
            find_from(v@, p@, from as int) == find_from(v@, p@, i as int),
        decreases v.len() + 1 - i,
    {
        if matches_at_chars(v, p, i) {
            return Some(i);
        }
        if i == v.len() {
            assert(p@.len() > 0) by {
                if p@.len() == 0 {
                    assert(v@.subrange(i as int, i as int) =~= p@);
                }
            }
            return None;
        }
        i += 1;
    }
    None
}

/// The first position of `p` in `v`.
pub fn find_chars(v: &[char], p: &[char]) -> (r: Option<usize>)
    ensures
        match r {
            Some(i) => find(v@, p@) == Some(i as int),
            None => find(v@, p@) is None,
        },
{
    find_chars_from(v, p, 0)
}

pub fn find_lit(v: &[char], lit: &str) -> (r: Option<usize>)
    ensures
        match r {
            Some(i) => find(v@, lit@) == Some(i as int),
            None => find(v@, lit@) is None,
        },
{
    let p = to_chars(lit);
    find_chars(v, &p)
}

pub fn contains_lit(v: &[char], lit: &str) -> (b: bool)
    ensures
        b == contains(v@, lit@),
{
    find_lit(v, lit).is_some()
}

pub fn has_char_exec(v: &[char], c: char) -> (b: bool)
    ensures
        b == has_char(v@, c),
{
    let mut i: usize = 0;
    while i < v.len()
        invariant
            i <= v.len(),
            forall|k: int| 0 <= k < i ==> v@[k] != c,
        decreases v.len() - i,
    {
        if v[i] == c {
            return true;
        }
        i += 1;
    }
    false
}

/// `str::lines`.
pub fn split_lines(v: &[char]) -> (r: Vec<Vec<char>>)
    ensures
        views(r@) == lines(v@),
{
    let mut r: Vec<Vec<char>> = Vec::new();
    let mut cur: Vec<char> = Vec::new();
    let mut i: usize = 0;
    assert(v@.skip(0) =~= v@);
    assert(views(r@) =~= Seq::<Seq<char>>::empty());
    while i < v.len()
        invariant
            i <= v.len(),
            lines(v@) == views(r@) + lines_acc(v@.skip(i as int), cur@),
        decreases v.len() - i,
    {
        let ghost rest = v@.skip(i as int);
        assert(rest.drop_first() =~= v@.skip(i + 1));
        if v[i] == '\n' {
            let line = if cur.len() > 0 && cur[cur.len() - 1] == '\r' {
                slice(&cur, 0, cur.len() - 1)
            } else {
                cur
            };
            assert(line@ == strip_cr(cur@)) by {
                if cur@.len() > 0 && cur@.last() == '\r' {
                    assert(cur@.subrange(0, cur@.len() - 1) =~= cur@.drop_last());
                }
            }
            let ghost before = r@;
            r.push(line);
            assert(views(r@) =~= views(before) + seq![strip_cr(cur@)]);
            cur = Vec::new();
            assert(lines_acc(v@.skip(i + 1), cur@) == lines_acc(v@.skip(i + 1), Seq::empty()));
        } else {
            cur.push(v[i]);
        }
        i += 1;
    }
    if cur.len() > 0 {
        let ghost before = r@;
        r.push(cur);
        assert(views(r@) =~= views(before) + views(seq![r@.last()]));
    }
    assert(views(r@) =~= lines(v@));
    r
}


/// `str::split_whitespace`.
pub fn split_words(v: &[char]) -> (r: Vec<Vec<char>>)
    ensures
        views(r@) == words(v@),
{
    let mut r: Vec<Vec<char>> = Vec::new();
    let mut cur: Vec<char> = Vec::new();
    let mut i: usize = 0;
    assert(v@.skip(0) =~= v@);
    assert(views(r@) =~= Seq::<Seq<char>>::empty());
    while i < v.len()
        invariant
            i <= v.len(),
            words(v@) == views(r@) + words_acc(v@.skip(i as int), cur@),
        decreases v.len() - i,
    {
        let ghost rest = v@.skip(i as int);
        assert(rest.drop_first() =~= v@.skip(i + 1));
        if is_whitespace(v[i]) {
            if cur.len() > 0 {
                let ghost before = r@;
                let ghost c = cur@;
                r.push(cur);
                assert(views(r@) =~= views(before) + seq![c]);
            } else {
                assert(views(r@) + Seq::<Seq<char>>::empty() =~= views(r@));
            }
            cur = Vec::new();
            assert(words_acc(v@.skip(i + 1), cur@) == words_acc(v@.skip(i + 1), Seq::empty()));
        } else {
            cur.push(v[i]);
        }
        i += 1;
    }
    if cur.len() > 0 {
        let ghost before = r@;
        let ghost c = cur@;
        r.push(cur);
        assert(views(r@) =~= views(before) + seq![c]);
    } else {
        assert(views(r@) + Seq::<Seq<char>>::empty() =~= views(r@));
    }
    r
}

/// `str::split` with a character separator.
pub fn split_char(v: &[char], sep: char) -> (r: Vec<Vec<char>>)
    ensures
        views(r@) == split(v@, sep),
        r@.len() >= 1,
{
    let mut r: Vec<Vec<char>> = Vec::new();
    let mut cur: Vec<char> = Vec::new();
    let mut i: usize = 0;
    assert(v@.skip(0) =~= v@);
    assert(views(r@) =~= Seq::<Seq<char>>::empty());
    while i < v.len()
        invariant
            i <= v.len(),
            split(v@, sep) == views(r@) + split_acc(v@.skip(i as int), sep, cur@),
        decreases v.len() - i,
    {
        let ghost rest = v@.skip(i as int);
        assert(rest.drop_first() =~= v@.skip(i + 1));
        if v[i] == sep {
            let ghost before = r@;
            let ghost c = cur@;
            r.push(cur);
            assert(views(r@) =~= views(before) + seq![c]);
            cur = Vec::new();
            assert(split_acc(v@.skip(i + 1), sep, cur@) == split_acc(v@.skip(i + 1), sep, Seq::empty()));
        } else {
            cur.push(v[i]);
        }
        i += 1;
    }
    let ghost before = r@;
    let ghost c = cur@;
    r.push(cur);
    assert(views(r@) =~= views(before) + seq![c]);
    r
}


pub fn ascii_lower(c: char) -> (r: char)
    ensures
        r == ascii_lower_char(c),
{
    if 'A' <= c && c <= 'Z' {
        ((c as u8) + 32) as char
    } else {
        c
    }
}

/// `str::eq_ignore_ascii_case`.
pub fn eq_ignore_ascii_case_chars(a: &[char], b: &[char]) -> (r: bool)
    ensures
        r == eq_ignore_ascii_case(a@, b@),
{
    if a.len() != b.len() {
        return false;
    }
    let mut i: usize = 0;
    while i < a.len()
        invariant
            i <= a.len(),
            a.len() == b.len(),
            forall|k: int| 0 <= k < i ==> #[trigger] ascii_lower_char(a@[k]) == ascii_lower_char(b@[k]),
        decreases a.len() - i,
    {
        if ascii_lower(a[i]) != ascii_lower(b[i]) {
            return false;
        }
        i += 1;
    }
    true
}

/// The number of bytes of `c` in UTF-8.
pub open spec fn utf8_width(c: char) -> nat {
    let u = c as u32;
    if u < 0x80 {
        1
    } else if u < 0x800 {
        2
    } else if u < 0x10000 {
        3
    } else {
        4
    }
}

/// The number of bytes of `s` in UTF-8 (`str::len`).
pub open spec fn utf8_len(s: Seq<char>) -> nat
    decreases s.len(),
{
    if s.len() == 0 {
        0
    } else {
        utf8_len(s.drop_last()) + utf8_width(s.last())
    }
}

/// The byte length of the leading whitespace of `line`
/// (`line.len() - line.trim_start().len()`).
pub open spec fn indent_bytes(line: Seq<char>) -> int {
    utf8_len(line) - utf8_len(trim_start(line))
}

pub proof fn lemma_utf8_len_concat(a: Seq<char>, b: Seq<char>)
    ensures
        utf8_len(a + b) == utf8_len(a) + utf8_len(b),
    decreases b.len(),
{
    if b.len() > 0 {
        lemma_utf8_len_concat(a, b.drop_last());
        assert((a + b).drop_last() =~= a + b.drop_last());
    } else {
        assert(a + b =~= a);
    }
}

fn utf8_width_exec(c: char) -> (w: usize)
    ensures
        w == utf8_width(c),
{
    let u = c as u32;
    if u < 0x80 {
        1
    } else if u < 0x800 {
        2
    } else if u < 0x10000 {
        3
    } else {
        4
    }
}

/// `line.len() - line.trim_start().len()`: the bytes of leading whitespace.
pub fn indent_of(line: &[char]) -> (n: u128)
    ensures
        n == indent_bytes(line@),
{
    let mut i: usize = 0;
    let mut bytes: u128 = 0;
    assert(line@.skip(0) =~= line@);
    assert(line@.take(0) =~= Seq::<char>::empty());
    while i < line.len() && is_whitespace(line[i])
        invariant
            i <= line.len(),
            trim_start(line@) == trim_start(line@.skip(i as int)),
            forall|k: int| 0 <= k < i ==> is_ws(#[trigger] line@[k]),
            bytes == utf8_len(line@.take(i as int)),
            bytes <= 4 * i,
        decreases line.len() - i,
    {
        proof {
            lemma_trim_start_step(line@, i as int);
        }
        assert(line@.take(i + 1).drop_last() =~= line@.take(i as int));
        bytes = bytes + utf8_width_exec(line[i]) as u128;
        i += 1;
    }
    assert(trim_start(line@.skip(i as int)) == line@.skip(i as int));
    proof {
        lemma_utf8_len_concat(line@.take(i as int), line@.skip(i as int));
        assert(line@.take(i as int) + line@.skip(i as int) =~= line@);
    }
    bytes
}

/// `str::trim_end`.
pub fn trim_end_chars(v: &[char]) -> (r: Vec<char>)
    ensures
        r@ == trim_end(v@),
{
    let mut j = v.len();
    assert(v@.take(j as int) =~= v@);
    while j > 0 && is_whitespace(v[j - 1])
        invariant
            j <= v.len(),
            trim_end(v@) == trim_end(v@.take(j as int)),
        decreases j,
    {
        proof {
            lemma_trim_end_step(v@, j as int);
        }
        j -= 1;
    }
    let r = slice(v, 0, j);
    assert(v@.subrange(0, j as int) =~= v@.take(j as int));
    r
}

/// `str::trim_end_matches` with a character.
pub fn trim_char_end_chars(v: &[char], c: char) -> (r: Vec<char>)
    ensures
        r@ == trim_char_end(v@, c),
{
    let mut j = v.len();
    assert(v@.take(j as int) =~= v@);
    while j > 0 && v[j - 1] == c
        invariant
            j <= v.len(),
            trim_char_end(v@, c) == trim_char_end(v@.take(j as int), c),
        decreases j,
    {
        assert(v@.take(j as int).drop_last() =~= v@.take(j - 1));
        j -= 1;
    }
    let r = slice(v, 0, j);
    assert(v@.subrange(0, j as int) =~= v@.take(j as int));
    r
}

/// `str::trim_start_matches` with a character.
pub fn trim_char_start_chars(v: &[char], c: char) -> (r: Vec<char>)
    ensures
        r@ == trim_char_start(v@, c),
{
    let mut i: usize = 0;
    assert(v@.skip(0) =~= v@);
    while i < v.len() && v[i] == c
        invariant
            i <= v.len(),
            trim_char_start(v@, c) == trim_char_start(v@.skip(i as int), c),
        decreases v.len() - i,
    {
        assert(v@.skip(i as int).drop_first() =~= v@.skip(i + 1));
        i += 1;
    }
    let r = slice(v, i, v.len());
    assert(v@.subrange(i as int, v@.len() as int) =~= v@.skip(i as int));
    r
}

/// `str::trim_start`.
pub fn trim_start_chars(v: &[char]) -> (r: Vec<char>)
    ensures
        r@ == trim_start(v@),
{
    let mut i: usize = 0;
    assert(v@.skip(0) =~= v@);
    while i < v.len() && is_whitespace(v[i])
        invariant
            i <= v.len(),
            trim_start(v@) == trim_start(v@.skip(i as int)),
        decreases v.len() - i,
    {
        assert(v@.skip(i as int).drop_first() =~= v@.skip(i + 1));
        i += 1;
    }
    let r = slice(v, i, v.len());
    assert(v@.subrange(i as int, v@.len() as int) =~= v@.skip(i as int));
    r
}

/// `str::trim_matches` with a character.
pub fn trim_char_chars(v: &[char], c: char) -> (r: Vec<char>)
    ensures
        r@ == trim_char(v@, c),
{
    let a = trim_char_start_chars(v, c);
    trim_char_end_chars(&a, c)
}

/// `str::strip_prefix` with a literal.
pub fn strip_prefix_lit(v: &[char], lit: &str) -> (r: Option<Vec<char>>)
    ensures
        match r {
            Some(x) => strip_prefix(v@, lit@) == Some(x@),
            None => strip_prefix(v@, lit@) is None,
        },
{
    if starts_with_lit(v, lit) {
        let n = lit.unicode_len();
        Some(slice(v, n, v.len()))
    } else {
        None
    }
}

/// `str::strip_suffix` with a literal.
pub fn strip_suffix_lit(v: &[char], lit: &str) -> (r: Option<Vec<char>>)
    ensures
        match r {
            Some(x) => strip_suffix(v@, lit@) == Some(x@),
            None => strip_suffix(v@, lit@) is None,
        },
{
    if ends_with_lit(v, lit) {
        let n = lit.unicode_len();
        Some(slice(v, 0, v.len() - n))
    } else {
        None
    }
}

/// `str::split_once` with a literal.
pub fn split_once_lit(v: &[char], lit: &str) -> (r: Option<(Vec<char>, Vec<char>)>)
    ensures
        match r {
            Some((a, b)) => split_once(v@, lit@) == Some((a@, b@)),
            None => split_once(v@, lit@) is None,
        },
{
    let p = to_chars(lit);
    match find_chars(v, &p) {
        Some(i) => {
            proof {
                lemma_find_from_bounds(v@, p@, 0);
                assert(find_from(v@, p@, 0) == Some(i as int));
                assert(matches_at(v@, p@, i as int));
                assert(i + p@.len() <= v@.len());
            }
            assert(i + p.len() <= v.len());
            Some((slice(v, 0, i), slice(v, i + p.len(), v.len())))
        },
        None => None,
    }
}

/// A position that `find_from` reports holds a match.
pub proof fn lemma_find_from_bounds(s: Seq<char>, p: Seq<char>, i: int)
    ensures
        find_from(s, p, i) matches Some(k) ==> i <= k && matches_at(s, p, k),
    decreases s.len() + 1 - i,
{
    if !(i < 0 || i + p.len() > s.len()) && s.subrange(i, i + p.len()) != p {
        lemma_find_from_bounds(s, p, i + 1);
    }
}

/// The last position at or before `i` where `p` occurs in `s`.
pub open spec fn rfind_from(s: Seq<char>, p: Seq<char>, i: int) -> Option<int>
    decreases i + 1,
{
    if i < 0 {
        None
    } else if matches_at(s, p, i) {
        Some(i)
    } else {
        rfind_from(s, p, i - 1)
    }
}

/// The last position where `p` occurs in `s` (`str::rfind`).
pub open spec fn rfind(s: Seq<char>, p: Seq<char>) -> Option<int> {
    rfind_from(s, p, s.len() - p.len())
}

/// The piece of `s` after the last `p` (`s.rsplit(p).next()`).
pub open spec fn last_piece(s: Seq<char>, p: Seq<char>) -> Seq<char> {
    match rfind(s, p) {
        Some(i) => s.subrange(i + p.len(), s.len() as int),
        None => s,
    }
}

/// `s` without leading or trailing `a` or `b` characters.
pub open spec fn trim_pair(s: Seq<char>, a: char, b: char) -> Seq<char> {
    trim_pair_end(trim_pair_start(s, a, b), a, b)
}

pub open spec fn trim_pair_start(s: Seq<char>, a: char, b: char) -> Seq<char>
    decreases s.len(),
{
    if s.len() > 0 && (s[0] == a || s[0] == b) {
        trim_pair_start(s.drop_first(), a, b)
    } else {
        s
    }
}

pub open spec fn trim_pair_end(s: Seq<char>, a: char, b: char) -> Seq<char>
    decreases s.len(),
{
    if s.len() > 0 && (s.last() == a || s.last() == b) {
        trim_pair_end(s.drop_last(), a, b)
    } else {
        s
    }
}

/// `str::trim_matches` with a pair of characters.
pub fn trim_pair_chars(v: &[char], a: char, b: char) -> (r: Vec<char>)
    ensures
        r@ == trim_pair(v@, a, b),
{
    let mut i: usize = 0;
    assert(v@.skip(0) =~= v@);
    while i < v.len() && (v[i] == a || v[i] == b)
        invariant
            i <= v.len(),
            trim_pair_start(v@, a, b) == trim_pair_start(v@.skip(i as int), a, b),
        decreases v.len() - i,
    {
        assert(v@.skip(i as int).drop_first() =~= v@.skip(i + 1));
        i += 1;
    }
    let t = slice(v, i, v.len());
    assert(t@ =~= v@.skip(i as int));
    let mut j = t.len();
    assert(t@.take(j as int) =~= t@);
    while j > 0 && (t[j - 1] == a || t[j - 1] == b)
        invariant
            j <= t.len(),
            trim_pair_end(t@, a, b) == trim_pair_end(t@.take(j as int), a, b),
        decreases j,
    {
        assert(t@.take(j as int).drop_last() =~= t@.take(j - 1));
        j -= 1;
    }
    let r = slice(&t, 0, j);
    assert(t@.subrange(0, j as int) =~= t@.take(j as int));
    r
}

/// The piece of `v` after the last `lit` (`str::rsplit(..).next()`).
pub fn last_piece_lit(v: &[char], lit: &str) -> (r: Vec<char>)
    ensures
        r@ == last_piece(v@, lit@),
{
    let p = to_chars(lit);
    if p.len() > v.len() {
        assert(rfind(v@, p@) is None);
        return copy(v);
    }
    let mut i: usize = v.len() - p.len();
    loop
        invariant
            p@ == lit@,
            i + p.len() <= v.len(),
            rfind(v@, p@) == rfind_from(v@, p@, i as int),
        decreases i,
    {
        if matches_at_chars(v, &p, i) {
            assert(rfind_from(v@, p@, i as int) == Some(i as int));
            return slice(v, i + p.len(), v.len());
        }
        assert(rfind_from(v@, p@, i as int) == rfind_from(v@, p@, i - 1));
        if i == 0 {
            assert(rfind_from(v@, p@, -1) is None);
            return copy(v);
        }
        i -= 1;
    }
}

// ---------------------------------------------------------------------------
// Texts made of lines
// ---------------------------------------------------------------------------

/// The text whose lines are `ls`, each ended by a line feed.
pub open spec fn text_of_lines(ls: Seq<Seq<char>>) -> Seq<char>
    decreases ls.len(),
{
    if ls.len() == 0 {
        Seq::empty()
    } else {
        ls[0] + seq!['\n'] + text_of_lines(ls.drop_first())
    }
}

/// A line that [`lines`] gives back as it is: no line feed in it, and no
/// carriage return at its end.
pub open spec fn plain_line(l: Seq<char>) -> bool {
    !l.contains('\n') && (l.len() == 0 || l.last() != '\r')
}

proof fn lemma_lines_acc_through(l: Seq<char>, rest: Seq<char>, cur: Seq<char>)
    requires
        !l.contains('\n'),
    ensures
        lines_acc(l + rest, cur) == lines_acc(rest, cur + l),
    decreases l.len(),
{
    if l.len() == 0 {
        assert(l + rest =~= rest);
        assert(cur + l =~= cur);
    } else {
        assert(l.contains(l[0]));
        assert((l + rest)[0] == l[0]);
        assert((l + rest).drop_first() =~= l.drop_first() + rest);
        assert(!l.drop_first().contains('\n')) by {
            if l.drop_first().contains('\n') {
                let k = choose|k: int| 0 <= k < l.drop_first().len() && l.drop_first()[k] == '\n';
                assert(l[k + 1] == '\n');
                assert(l.contains(l[k + 1]));
            }
        }
        lemma_lines_acc_through(l.drop_first(), rest, cur.push(l[0]));
        assert(cur.push(l[0]) + l.drop_first() =~= cur + l);
    }
}

/// The lines of a text made of plain lines are those lines.
pub proof fn lines_of_text_of_lines(ls: Seq<Seq<char>>)
    requires
        forall|i: int| 0 <= i < ls.len() ==> plain_line(#[trigger] ls[i]),
    ensures
        lines(text_of_lines(ls)) == ls,
    decreases ls.len(),
{
    if ls.len() > 0 {
        let l = ls[0];
        let rest = text_of_lines(ls.drop_first());
        assert forall|i: int| 0 <= i < ls.drop_first().len() implies plain_line(
            #[trigger] ls.drop_first()[i],
        ) by {
            assert(ls.drop_first()[i] == ls[i + 1]);
        }
        lines_of_text_of_lines(ls.drop_first());
        let e = Seq::<char>::empty();
        assert(text_of_lines(ls) =~= l + (seq!['\n'] + rest));
        assert(plain_line(l));
        lemma_lines_acc_through(l, seq!['\n'] + rest, e);
        assert(e + l =~= l);
        assert((seq!['\n'] + rest)[0] == '\n');
        assert((seq!['\n'] + rest).drop_first() =~= rest);
        assert(strip_cr(l) == l);
        assert(lines(text_of_lines(ls)) =~= seq![l] + ls.drop_first());
        assert(seq![l] + ls.drop_first() =~= ls);
    } else {
        assert(text_of_lines(ls) =~= Seq::<char>::empty());
    }
}

/// `n` spaces.
pub open spec fn spaces(n: nat) -> Seq<char> {
    Seq::new(n, |i: int| ' ')
}

proof fn lemma_trim_start_spaces(n: nat, x: Seq<char>)
    ensures
        trim_start(spaces(n) + x) == trim_start(x),
    decreases n,
{
    if n > 0 {
        assert(is_ws(' '));
        assert((spaces(n) + x)[0] == ' ');
        assert((spaces(n) + x).drop_first() =~= spaces((n - 1) as nat) + x);
        lemma_trim_start_spaces((n - 1) as nat, x);
    } else {
        assert(spaces(n) + x =~= x);
    }
}

/// A line of `n` spaces and then `x`, which neither starts nor ends with
/// whitespace, trims to `x` and is indented `n` bytes.
pub proof fn indented_line(n: nat, x: Seq<char>)
    requires
        x.len() > 0,
        !is_ws(x[0]),
        !is_ws(x.last()),
    ensures
        trim_start(spaces(n) + x) == x,
        trim(spaces(n) + x) == x,
        indent_bytes(spaces(n) + x) == n,
        starts_with(spaces(n) + x, spaces(n)),
        n > 0 ==> (spaces(n) + x)[0] == ' ',
{
    lemma_trim_start_spaces(n, x);
    lemma_utf8_len_concat(spaces(n), x);
    lemma_utf8_spaces(n);
    assert((spaces(n) + x).subrange(0, n as int) =~= spaces(n));
}

proof fn lemma_utf8_spaces(n: nat)
    ensures
        utf8_len(spaces(n)) == n,
    decreases n,
{
    if n > 0 {
        lemma_utf8_spaces((n - 1) as nat);
        assert(spaces(n).drop_last() =~= spaces((n - 1) as nat));
    }
}

/// A character that is in neither `a` nor `b` is not in `a + b`.
pub proof fn absent_from_concat(a: Seq<char>, b: Seq<char>, c: char)
    requires
        !a.contains(c),
        !b.contains(c),
    ensures
        !(a + b).contains(c),
{
    if (a + b).contains(c) {
        let k = choose|k: int| 0 <= k < (a + b).len() && (a + b)[k] == c;
        if k < a.len() {
            assert(a[k] == c);
            assert(a.contains(a[k]));
        } else {
            assert(b[k - a.len()] == c);
            assert(b.contains(b[k - a.len()]));
        }
    }
}

/// `s` holds no whitespace.
pub open spec fn no_ws(s: Seq<char>) -> bool {
    forall|i: int| 0 <= i < s.len() ==> !is_ws(#[trigger] s[i])
}

/// Every word of `s` is free of whitespace.
pub proof fn words_hold_no_whitespace(s: Seq<char>, cur: Seq<char>)
    requires
        no_ws(cur),
    ensures
        forall|k: int| 0 <= k < words_acc(s, cur).len() ==> no_ws(#[trigger] words_acc(s, cur)[k]),
    decreases s.len(),
{
    if s.len() > 0 {
        if is_ws(s[0]) {
            words_hold_no_whitespace(s.drop_first(), Seq::empty());
            let head: Seq<Seq<char>> = if cur.len() > 0 {
                seq![cur]
            } else {
                Seq::empty()
            };
            let tail = words_acc(s.drop_first(), Seq::empty());
            assert(words_acc(s, cur) == head + tail);
            assert forall|k: int| 0 <= k < words_acc(s, cur).len() implies no_ws(
                #[trigger] words_acc(s, cur)[k],
            ) by {
                if k < head.len() {
                    assert(words_acc(s, cur)[k] == cur);
                } else {
                    assert(words_acc(s, cur)[k] == tail[k - head.len()]);
                }
            }
        } else {
            assert(no_ws(cur.push(s[0]))) by {
                assert forall|i: int| 0 <= i < cur.push(s[0]).len() implies !is_ws(
                    #[trigger] cur.push(s[0])[i],
                ) by {
                    if i < cur.len() {
                        assert(cur.push(s[0])[i] == cur[i]);
                    }
                }
            }
            words_hold_no_whitespace(s.drop_first(), cur.push(s[0]));
            assert(words_acc(s, cur) == words_acc(s.drop_first(), cur.push(s[0])));
        }
    } else {
        assert forall|k: int| 0 <= k < words_acc(s, cur).len() implies no_ws(
            #[trigger] words_acc(s, cur)[k],
        ) by {
            assert(words_acc(s, cur)[k] == cur);
        }
    }
}

/// Reading through a word adds it to the word being collected.
pub proof fn words_through_word(w: Seq<char>, rest: Seq<char>, cur: Seq<char>)
    requires
        no_ws(w),
    ensures
        words_acc(w + rest, cur) == words_acc(rest, cur + w),
    decreases w.len(),
{
    if w.len() == 0 {
        assert(w + rest =~= rest);
        assert(cur + w =~= cur);
    } else {
        assert((w + rest)[0] == w[0]);
        assert((w + rest).drop_first() =~= w.drop_first() + rest);
        assert(no_ws(w.drop_first())) by {
            assert forall|i: int| 0 <= i < w.drop_first().len() implies !is_ws(
                #[trigger] w.drop_first()[i],
            ) by {
                assert(w.drop_first()[i] == w[i + 1]);
            }
        }
        words_through_word(w.drop_first(), rest, cur.push(w[0]));
        assert(cur.push(w[0]) + w.drop_first() =~= cur + w);
    }
}

/// Stripping a character from the ends of a text without whitespace
/// leaves a text without whitespace.
pub proof fn trim_char_keeps_no_ws(s: Seq<char>, c: char)
    requires
        no_ws(s),
    ensures
        no_ws(trim_char_start(s, c)),
        no_ws(trim_char(s, c)),
    decreases s.len(),
{
    if s.len() > 0 && s[0] == c {
        assert(no_ws(s.drop_first())) by {
            assert forall|i: int| 0 <= i < s.drop_first().len() implies !is_ws(
                #[trigger] s.drop_first()[i],
            ) by {
                assert(s.drop_first()[i] == s[i + 1]);
            }
        }
        trim_char_keeps_no_ws(s.drop_first(), c);
    }
    trim_char_end_keeps_no_ws(trim_char_start(s, c), c);
}

proof fn trim_char_end_keeps_no_ws(s: Seq<char>, c: char)
    requires
        no_ws(s),
    ensures
        no_ws(trim_char_end(s, c)),
    decreases s.len(),
{
    if s.len() > 0 && s.last() == c {
        assert(no_ws(s.drop_last())) by {
            assert forall|i: int| 0 <= i < s.drop_last().len() implies !is_ws(
                #[trigger] s.drop_last()[i],
            ) by {
                assert(s.drop_last()[i] == s[i]);
            }
        }
        trim_char_end_keeps_no_ws(s.drop_last(), c);
    }
}

} // verus!
