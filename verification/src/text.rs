//! Character-level text handling shared by the deck parser, the roster and
//! the callbook code: Unicode whitespace, trimming, searching, line splitting
//! and UTF-8 byte offsets, all over `Seq<char>` models.
use vstd::prelude::*;

verus! {

// ---------------------------------------------------------------------------
// Specifications
// ---------------------------------------------------------------------------

/// The Unicode `White_Space` property (the set that `char::is_whitespace`
/// and `str::trim` use).
pub open spec fn is_white_space(c: char) -> bool {
    let u = c as u32;
    ||| 0x09 <= u <= 0x0D
    ||| u == 0x20
    ||| u == 0x85
    ||| u == 0xA0
    ||| u == 0x1680
    ||| 0x2000 <= u <= 0x200A
    ||| u == 0x2028
    ||| u == 0x2029
    ||| u == 0x202F
    ||| u == 0x205F
    ||| u == 0x3000
}

/// `s` without its leading whitespace.
pub open spec fn trim_start(s: Seq<char>) -> Seq<char>
    decreases s.len(),
{
    if s.len() > 0 && is_white_space(s[0]) {
        trim_start(s.drop_first())
    } else {
        s
    }
}

/// `s` without its trailing whitespace.
pub open spec fn trim_end(s: Seq<char>) -> Seq<char>
    decreases s.len(),
{
    if s.len() > 0 && is_white_space(s.last()) {
        trim_end(s.drop_last())
    } else {
        s
    }
}

/// `s` without leading and trailing whitespace.
pub open spec fn trim(s: Seq<char>) -> Seq<char> {
    trim_end(trim_start(s))
}

/// `p` is a prefix of `s`.
pub open spec fn starts_with(s: Seq<char>, p: Seq<char>) -> bool {
    p.len() <= s.len() && s.take(p.len() as int) == p
}

/// The index of the first occurrence of `p` in `s`, if any.
pub open spec fn find(s: Seq<char>, p: Seq<char>) -> Option<int>
    decreases s.len(),
{
    if starts_with(s, p) {
        Some(0)
    } else if s.len() == 0 {
        None
    } else {
        match find(s.drop_first(), p) {
            Some(k) => Some(k + 1),
            None => None,
        }
    }
}

/// `p` occurs somewhere in `s`.
pub open spec fn contains(s: Seq<char>, p: Seq<char>) -> bool {
    find(s, p) is Some
}

/// The number of bytes of the UTF-8 encoding of `c`.
pub open spec fn utf8_width(c: char) -> nat {
    let u = c as u32;
    if u < 0x80 {
        1
    } else if u < 0x800 {
        2
    } else if u < 0x10000 {
        3
    } else {
        4
    }
}

/// The number of bytes of the UTF-8 encoding of `s`.
pub open spec fn byte_len(s: Seq<char>) -> nat
    decreases s.len(),
{
    if s.len() == 0 {
        0
    } else {
        utf8_width(s[0]) + byte_len(s.drop_first())
    }
}

/// The index of the character that starts at byte offset `b` of the UTF-8
/// encoding of `s`; `None` when `b` is not a character boundary of `s`
/// (inside a character, or past the end).
pub open spec fn char_index_at_byte(s: Seq<char>, b: int) -> Option<int>
    decreases s.len(),
{
    if b == 0 {
        Some(0)
    } else if s.len() == 0 || b < utf8_width(s[0]) {
        None
    } else {
        match char_index_at_byte(s.drop_first(), b - utf8_width(s[0])) {
            Some(j) => Some(j + 1),
            None => None,
        }
    }
}

/// `line` with one trailing carriage return removed.
pub open spec fn strip_cr(line: Seq<char>) -> Seq<char> {
    if line.len() > 0 && line.last() == '\r' {
        line.drop_last()
    } else {
        line
    }
}

/// The lines of `s` after a pending, unterminated line `cur`: lines end at
/// `'\n'` (a `'\r'` just before it is dropped), and a final line needs no
/// terminator but is never empty.
pub open spec fn lines_from(cur: Seq<char>, s: Seq<char>) -> Seq<Seq<char>>
    decreases s.len(),
{
    if s.len() == 0 {
        if cur.len() == 0 {
            seq![]
        } else {
            seq![cur]
        }
    } else if s[0] == '\n' {
        seq![strip_cr(cur)] + lines_from(seq![], s.drop_first())
    } else {
        lines_from(cur.push(s[0]), s.drop_first())
    }
}

/// The lines of `s`, as `str::lines` yields them.
pub open spec fn split_lines(s: Seq<char>) -> Seq<Seq<char>> {
    lines_from(seq![], s)
}

/// The ASCII decimal digits.
pub open spec fn is_ascii_digit(c: char) -> bool {
    '0' <= c <= '9'
}

/// Every character of `s` is ASCII.
pub open spec fn is_ascii_text(s: Seq<char>) -> bool {
    forall|i: int| 0 <= i < s.len() ==> (#[trigger] s[i] as u32) < 128
}

/// An ASCII letter `A`..`Z` in lower case; other characters unchanged.
pub open spec fn ascii_lower_char(c: char) -> char {
    if 'A' <= c && c <= 'Z' {
        ((c as u32) + 32) as char
    } else {
        c
    }
}

/// An ASCII letter `a`..`z` in upper case; other characters unchanged.
pub open spec fn ascii_upper_char(c: char) -> char {
    if 'a' <= c && c <= 'z' {
        ((c as u32) - 32) as char
    } else {
        c
    }
}

/// `s` with its ASCII letters in lower case.
pub open spec fn ascii_lower(s: Seq<char>) -> Seq<char> {
    s.map_values(|c: char| ascii_lower_char(c))
}

/// `s` with its ASCII letters in upper case.
pub open spec fn ascii_upper(s: Seq<char>) -> Seq<char> {
    s.map_values(|c: char| ascii_upper_char(c))
}

/// Upper-casing ASCII text keeps it ASCII, and doing it twice is doing it
/// once.
pub proof fn law_ascii_upper_settles(s: Seq<char>)
    requires
        is_ascii_text(s),
    ensures
        is_ascii_text(ascii_upper(s)),
        ascii_upper(ascii_upper(s)) == ascii_upper(s),
{
    let u = ascii_upper(s);
    assert forall|i: int| 0 <= i < s.len() implies (#[trigger] u[i] as u32) < 128 && ascii_upper_char(u[i]) == u[i] by {
        assert((s[i] as u32) < 128);
        assert(u[i] == ascii_upper_char(s[i]));
    }
    assert(ascii_upper(u) == u);
}

/// What `str::to_uppercase` returns for a string: Unicode's full uppercase
/// mapping, which takes tables to state.
pub uninterp spec fn upper_case(s: Seq<char>) -> Seq<char>;

/// What `str::to_lowercase` returns for a string: Unicode's full lowercase
/// mapping (final sigma included), which takes tables to state.
pub uninterp spec fn lower_case(s: Seq<char>) -> Seq<char>;

// ---------------------------------------------------------------------------
// Lemmas
// ---------------------------------------------------------------------------

/// Trimming from the front: whitespace before `i` can be skipped.
proof fn lemma_trim_start_skip(s: Seq<char>, i: int)
    requires
        0 <= i <= s.len(),
        forall|k: int| 0 <= k < i ==> is_white_space(#[trigger] s[k]),
    ensures
        trim_start(s) == trim_start(s.skip(i)),
    decreases i,
{
    if i > 0 {
        assert(s.skip(1) == s.drop_first());
        lemma_trim_start_skip(s.drop_first(), i - 1);
        assert(s.drop_first().skip(i - 1) == s.skip(i));
    } else {
        assert(s.skip(0) == s);
    }
}

/// Trimming from the back: whitespace after `j` can be cut.
proof fn lemma_trim_end_take(s: Seq<char>, j: int)
    requires
        0 <= j <= s.len(),
        forall|k: int| j <= k < s.len() ==> is_white_space(#[trigger] s[k]),
    ensures
        trim_end(s) == trim_end(s.take(j)),
    decreases s.len() - j,
{
    if j < s.len() {
        lemma_trim_end_take(s.drop_last(), j);
        assert(s.drop_last().take(j) == s.take(j));
    } else {
        assert(s.take(j) == s);
    }
}

/// Every character takes at least one byte.
pub proof fn lemma_byte_len_positive(c: char)
    ensures
        utf8_width(c) >= 1,
{
}

/// Byte length is additive over concatenation.
pub proof fn lemma_byte_len_concat(a: Seq<char>, b: Seq<char>)
    ensures
        byte_len(a + b) == byte_len(a) + byte_len(b),
    decreases a.len(),
{
    if a.len() > 0 {
        assert((a + b).drop_first() == a.drop_first() + b);
        lemma_byte_len_concat(a.drop_first(), b);
    } else {
        assert(a + b == b);
    }
}

/// The byte length of a prefix grows by the width of the next character.
pub proof fn lemma_byte_len_take_step(s: Seq<char>, i: int)
    requires
        0 <= i < s.len(),
    ensures
        byte_len(s.take(i + 1)) == byte_len(s.take(i)) + utf8_width(s[i]),
{
    assert(s.take(i + 1) == s.take(i) + seq![s[i]]);
    lemma_byte_len_concat(s.take(i), seq![s[i]]);
    assert(seq![s[i]].drop_first() == Seq::<char>::empty());
    assert(byte_len(Seq::<char>::empty()) == 0);
    assert(byte_len(seq![s[i]]) == utf8_width(s[i]) + byte_len(seq![s[i]].drop_first()));
}

/// A found character index is the one whose prefix has exactly `b` bytes.
pub proof fn lemma_char_index_at_byte_prefix(s: Seq<char>, b: int)
    requires
        char_index_at_byte(s, b) is Some,
    ensures
        0 <= char_index_at_byte(s, b)->0 <= s.len(),
        byte_len(s.take(char_index_at_byte(s, b)->0)) == b,
    decreases s.len(),
{
    if b == 0 {
        assert(s.take(0) == Seq::<char>::empty());
    } else {
        let t = s.drop_first();
        lemma_char_index_at_byte_prefix(t, b - utf8_width(s[0]));
        let j = char_index_at_byte(t, b - utf8_width(s[0]))->0;
        assert(s.take(j + 1).drop_first() == t.take(j));
    }
}

// ---------------------------------------------------------------------------
// Trusted calls into std
// ---------------------------------------------------------------------------

/// Calls `String::push`: appends one character.
#[verifier::external_body]
pub fn push_char(s: &mut String, c: char)
    ensures
        final(s)@ == old(s)@.push(c),
{
    s.push(c);
}

/// Calls `str::to_uppercase`; its result is named by `upper_case`. Of an
/// all-ASCII string the result is its ASCII upper case: std documents
/// `str::to_ascii_uppercase` as mapping `a`..`z` to `A`..`Z`, and
/// `to_uppercase` as what upper-cases ASCII characters in addition to
/// non-ASCII ones. Nothing more is stated of other strings.
#[verifier::external_body]
pub fn to_uppercase(s: &str) -> (r: String)
    ensures
        r@ == upper_case(s@),
        is_ascii_text(s@) ==> r@ == ascii_upper(s@),
{
    s.to_uppercase()
}

/// Calls `str::to_lowercase`; its result is named by `lower_case`. Of an
/// all-ASCII string the result is its ASCII lower case: std documents
/// `str::to_ascii_lowercase` as mapping `A`..`Z` to `a`..`z`, and
/// `to_lowercase` as what lower-cases ASCII characters in addition to
/// non-ASCII ones. Nothing more is stated of other strings.
#[verifier::external_body]
pub fn to_lowercase(s: &str) -> (r: String)
    ensures
        r@ == lower_case(s@),
        is_ascii_text(s@) ==> r@ == ascii_lower(s@),
{
    s.to_lowercase()
}

/// Calls `str::len`: the length of a string slice in UTF-8 bytes.
#[verifier::external_body]
pub fn str_byte_len(s: &str) -> (n: usize)
    ensures
        n == byte_len(s@),
{
    s.len()
}

/// Calls `String::pop`: removes the last character, if any.
#[verifier::external_body]
pub fn pop_char(s: &mut String)
    ensures
        final(s)@ == if old(s)@.len() > 0 {
            old(s)@.drop_last()
        } else {
            old(s)@
        },
{
    s.pop();
}

// ---------------------------------------------------------------------------
// Executable functions
// ---------------------------------------------------------------------------

/// The characters of a string slice, in order.
pub fn chars_of(s: &str) -> (v: Vec<char>)
    ensures
        v@ == s@,
{
    let mut v: Vec<char> = Vec::new();
    for c in it: s.chars()
        invariant
            v@ == it.seq().take(it.index() as int),
            it.seq() == s@,
    {
        v.push(c);
    }
    v
}

/// A string holding the characters `v[lo..hi]`.
pub fn string_from(v: &[char], lo: usize, hi: usize) -> (s: String)
    requires
        lo <= hi <= v@.len(),
    ensures
        s@ == v@.subrange(lo as int, hi as int),
{
    let mut s = String::new();
    let mut i = lo;
    while i < hi
        invariant
            lo <= i <= hi <= v@.len(),
            s@ == v@.subrange(lo as int, i as int),
        decreases hi - i,
    {
        push_char(&mut s, v[i]);
        assert(v@.subrange(lo as int, i + 1) == v@.subrange(lo as int, i as int).push(v@[i as int]));
        i += 1;
    }
    s
}

/// A string holding all characters of `v`.
pub fn string_of(v: &[char]) -> (s: String)
    ensures
        s@ == v@,
{
    let s = string_from(v, 0, v.len());
    assert(v@.subrange(0, v@.len() as int) == v@);
    s
}

/// The characters `v[lo..hi]` as a vector.
pub fn sub_chars(v: &[char], lo: usize, hi: usize) -> (r: Vec<char>)
    requires
        lo <= hi <= v@.len(),
    ensures
        r@ == v@.subrange(lo as int, hi as int),
{
    let mut r: Vec<char> = Vec::new();
    let mut i = lo;
    while i < hi
        invariant
            lo <= i <= hi <= v@.len(),
            r@ == v@.subrange(lo as int, i as int),
        decreases hi - i,
    {
        r.push(v[i]);
        assert(v@.subrange(lo as int, i + 1) == v@.subrange(lo as int, i as int).push(v@[i as int]));
        i += 1;
    }
    r
}

/// Whether `c` is Unicode whitespace (`char::is_whitespace`).
pub fn is_whitespace(c: char) -> (b: bool)
    ensures
        b == is_white_space(c),
{
    let u = c as u32;
    (0x09 <= u && u <= 0x0D) || u == 0x20 || u == 0x85 || u == 0xA0 || u == 0x1680 || (0x2000
        <= u && u <= 0x200A) || u == 0x2028 || u == 0x2029 || u == 0x202F || u == 0x205F || u
        == 0x3000
}

/// The bounds `(lo, hi)` of `v` with surrounding whitespace removed.
pub fn trim_bounds(v: &[char]) -> (r: (usize, usize))
    ensures
        r.0 <= r.1 <= v@.len(),
        v@.subrange(r.0 as int, r.1 as int) == trim(v@),
{
    let n = v.len();
    let mut lo: usize = 0;
    while lo < n && is_whitespace(v[lo])
        invariant
            lo <= n == v@.len(),
            forall|k: int| 0 <= k < lo ==> is_white_space(#[trigger] v@[k]),
        decreases n - lo,
    {
        lo += 1;
    }
    proof {
        lemma_trim_start_skip(v@, lo as int);
        assert(trim_start(v@.skip(lo as int)) == v@.skip(lo as int));
    }
    let ghost t = v@.skip(lo as int);
    let mut hi: usize = n;
    while hi > lo && is_whitespace(v[hi - 1])
        invariant
            lo <= hi <= n == v@.len(),
            t == v@.skip(lo as int),
            forall|k: int| hi <= k < n ==> is_white_space(#[trigger] v@[k]),
        decreases hi,
    {
        hi -= 1;
    }
    proof {
        let j = hi - lo;
        assert forall|k: int| j <= k < t.len() implies is_white_space(#[trigger] t[k]) by {
            assert(t[k] == v@[k + lo]);
        }
        lemma_trim_end_take(t, j);
        assert(t.take(j) == v@.subrange(lo as int, hi as int));
        assert(trim_end(t.take(j)) == t.take(j));
    }
    (lo, hi)
}

/// `v` with surrounding whitespace removed.
pub fn trim_chars(v: &[char]) -> (r: Vec<char>)
    ensures
        r@ == trim(v@),
{
    let (lo, hi) = trim_bounds(v);
    sub_chars(v, lo, hi)
}

/// Whether `p` occurs in `v` at position `i`.
pub fn matches_at(v: &[char], p: &[char], i: usize) -> (b: bool)
    requires
        i <= v@.len(),
    ensures
        b == starts_with(v@.skip(i as int), p@),
{
    let n = v.len();
    let m = p.len();
    if m > n - i {
        return false;
    }
    let mut j: usize = 0;
    while j < m
        invariant
            i + m <= n == v@.len(),
            m == p@.len(),
            j <= m,
            forall|k: int| 0 <= k < j ==> v@[i + k] == p@[k],
        decreases m - j,
    {
        if v[i + j] != p[j] {
            assert(v@.skip(i as int).take(m as int)[j as int] != p@[j as int]);
            return false;
        }
        j += 1;
    }
    assert(v@.skip(i as int).take(m as int) == p@);
    true
}

/// If `p` is longer than `s`, it is not found.
proof fn lemma_find_short(s: Seq<char>, p: Seq<char>)
    requires
        s.len() < p.len(),
    ensures
        find(s, p) is None,
    decreases s.len(),
{
    if s.len() > 0 {
        lemma_find_short(s.drop_first(), p);
    }
}

/// A found occurrence lies inside the searched sequence.
pub proof fn lemma_find_fits(s: Seq<char>, p: Seq<char>)
    requires
        find(s, p) is Some,
    ensures
        0 <= find(s, p)->0,
        find(s, p)->0 + p.len() <= s.len(),
        s.subrange(find(s, p)->0, find(s, p)->0 + p.len()) == p,
    decreases s.len(),
{
    if starts_with(s, p) {
        assert(s.subrange(0, p.len() as int) == s.take(p.len() as int));
    } else {
        lemma_find_fits(s.drop_first(), p);
        let k = find(s.drop_first(), p)->0;
        assert(s.subrange(k + 1, k + 1 + p.len()) == s.drop_first().subrange(k, k + p.len()));
    }
}

/// The index of the first occurrence of `p` in `v`.
pub fn find_chars(v: &[char], p: &[char]) -> (r: Option<usize>)
    ensures
        r is Some <==> find(v@, p@) is Some,
        r matches Some(k) ==> find(v@, p@) == Some(k as int),
{
    let n = v.len();
    let mut i: usize = 0;
    assert(v@.skip(0) == v@);
    loop
        invariant
            i <= n == v@.len(),
            find(v@, p@) == (match find(v@.skip(i as int), p@) {
                Some(k) => Some(k + i),
                None => None,
            }),
        decreases n - i,
    {
        if matches_at(v, p, i) {
            return Some(i);
        }
        if i == n {
            return None;
        }
        assert(v@.skip(i as int).drop_first() == v@.skip(i + 1));
        i += 1;
    }
}

/// Whether `p` occurs in `v`.
pub fn contains_chars(v: &[char], p: &[char]) -> (b: bool)
    ensures
        b == contains(v@, p@),
{
    find_chars(v, p).is_some()
}

/// Whether two strings hold the same characters.
pub fn same_text(a: &str, b: &str) -> (r: bool)
    ensures
        r == (a@ == b@),
{
    let x = chars_of(a);
    let y = chars_of(b);
    if x.len() != y.len() {
        return false;
    }
    let n = x.len();
    let mut i: usize = 0;
    while i < n
        invariant
            i <= n == x@.len() == y@.len(),
            x@ == a@,
            y@ == b@,
            forall|k: int| 0 <= k < i ==> x@[k] == y@[k],
        decreases n - i,
    {
        if x[i] != y[i] {
            assert(x@[i as int] != y@[i as int]);
            return false;
        }
        i += 1;
    }
    assert(x@ == y@);
    true
}

/// The UTF-8 width of `c` in bytes (`char::len_utf8`).
pub fn char_width(c: char) -> (w: usize)
    ensures
        w == utf8_width(c),
        1 <= w <= 4,
{
    let u = c as u32;
    if u < 0x80 {
        1
    } else if u < 0x800 {
        2
    } else if u < 0x10000 {
        3
    } else {
        4
    }
}

/// The index of the character of `v` that starts at byte offset `b`.
pub fn char_index_of_byte(v: &[char], b: usize) -> (r: Option<usize>)
    ensures
        r is Some <==> char_index_at_byte(v@, b as int) is Some,
        r matches Some(j) ==> char_index_at_byte(v@, b as int) == Some(j as int),
{
    let n = v.len();
    let mut i: usize = 0;
    let mut acc: usize = 0;
    assert(v@.skip(0) == v@);
    while i < n && acc < b
        invariant
            i <= n == v@.len(),
            acc <= b,
            char_index_at_byte(v@, b as int) == (match char_index_at_byte(
                v@.skip(i as int),
                b - acc,
            ) {
                Some(j) => Some(j + i),
                None => None,
            }),
        decreases n - i,
    {
        let w = char_width(v[i]);
        assert(v@.skip(i as int)[0] == v@[i as int]);
        if w > b - acc {
            return None;
        }
        assert(v@.skip(i as int).drop_first() == v@.skip(i + 1));
        acc += w;
        i += 1;
    }
    if acc == b {
        Some(i)
    } else {
        assert(v@.skip(i as int).len() == 0);
        None
    }
}

/// The lines of `v`, as `str::lines` yields them.
pub fn split_lines_chars(v: &[char]) -> (r: Vec<Vec<char>>)
    ensures
        r@.map_values(|l: Vec<char>| l@) == split_lines(v@),
{
    let n = v.len();
    let mut out: Vec<Vec<char>> = Vec::new();
    let mut cur: Vec<char> = Vec::new();
    let mut i: usize = 0;
    assert(v@.skip(0) == v@);
    assert(out@.map_values(|l: Vec<char>| l@) == Seq::<Seq<char>>::empty());
    assert(cur@ == Seq::<char>::empty());
    while i < n
        invariant
            i <= n == v@.len(),
            out@.map_values(|l: Vec<char>| l@) + lines_from(cur@, v@.skip(i as int)) == split_lines(
                v@,
            ),
        decreases n - i,
    {
        let c = v[i];
        let ghost rest = v@.skip(i as int);
        assert(rest[0] == c);
        assert(rest.drop_first() == v@.skip(i + 1));
        if c == '\n' {
            let mut line = cur;
            let k = line.len();
            if k > 0 && line[k - 1] == '\r' {
                line.pop();
            }
            assert(line@ == strip_cr(cur@));
            let ghost before = out@.map_values(|l: Vec<char>| l@);
            out.push(line);
            assert(out@.map_values(|l: Vec<char>| l@) == before.push(strip_cr(cur@)));
            assert(before + lines_from(cur@, rest) == before.push(strip_cr(cur@)) + lines_from(
                seq![],
                v@.skip(i + 1),
            ));
            cur = Vec::new();
            assert(cur@ == Seq::<char>::empty());
        } else {
            cur.push(c);
        }
        i += 1;
    }
    assert(v@.skip(n as int) == Seq::<char>::empty());
    if cur.len() > 0 {
        let ghost before = out@.map_values(|l: Vec<char>| l@);
        let ghost last = cur@;
        out.push(cur);
        assert(out@.map_values(|l: Vec<char>| l@) == before.push(last));
    }
    out
}

} // verus!
