//! Markdown trivia decks: questions, canonical answers and Net Control facts.
use vstd::prelude::*;

use crate::text::byte_len;
use crate::text::char_index_at_byte;
use crate::text::char_index_of_byte;
use crate::text::chars_of;
use crate::text::find;
use crate::text::find_chars;
use crate::text::is_ascii_digit;
use crate::text::lemma_byte_len_concat;
use crate::text::lemma_byte_len_take_step;
use crate::text::lines_from;
use crate::text::lower_case;
use crate::text::ascii_lower;
use crate::text::is_ascii_text;
use crate::text::push_char;
use crate::text::split_lines;
use crate::text::str_byte_len;
use crate::text::split_lines_chars;
use crate::text::string_of;
use crate::text::strip_cr;
use crate::text::to_lowercase;
use crate::text::trim;
use crate::text::trim_chars;
use crate::text::trim_end;
use crate::text::trim_start;

verus! {

/// One numbered question of a deck.
#[derive(Clone, Debug, PartialEq, Eq)]
pub struct TriviaQuestion {
    pub number: usize,
    pub question: String,
    pub answer: String,
    pub fact: Option<String>,
}

/// A titled deck of questions.
#[derive(Clone, Debug, PartialEq, Eq)]
pub struct TriviaTopic {
    pub title: String,
    pub questions: Vec<TriviaQuestion>,
}

/// The mathematical value of a question.
pub struct QuestionView {
    pub number: usize,
    pub question: Seq<char>,
    pub answer: Seq<char>,
    pub fact: Option<Seq<char>>,
}

/// The mathematical value of a deck.
pub struct TopicView {
    pub title: Seq<char>,
    pub questions: Seq<QuestionView>,
}

pub open spec fn opt_string_view(s: Option<String>) -> Option<Seq<char>> {
    match s {
        Some(t) => Some(t@),
        None => None,
    }
}

impl View for TriviaQuestion {
    type V = QuestionView;

    open spec fn view(&self) -> QuestionView {
        QuestionView {
            number: self.number,
            question: self.question@,
            answer: self.answer@,
            fact: opt_string_view(self.fact),
        }
    }
}

pub open spec fn questions_view(qs: Seq<TriviaQuestion>) -> Seq<QuestionView> {
    qs.map_values(|q: TriviaQuestion| q@)
}

impl View for TriviaTopic {
    type V = TopicView;

    open spec fn view(&self) -> TopicView {
        TopicView { title: self.title@, questions: questions_view(self.questions@) }
    }
}

/// The outcome of looking for a tagged line: no tag, the parsed content, or
/// a tag whose byte offset is not a character boundary of the line (where
/// slicing the line would panic).
pub enum LineScan<T> {
    Absent,
    Found(T),
    Unsliceable,
}

// ---------------------------------------------------------------------------
// Markdown cleaning
// ---------------------------------------------------------------------------

/// Characters that a backslash escapes in Markdown.
pub open spec fn is_escapable(c: char) -> bool {
    c == '.' || c == '!' || c == '?' || c == '(' || c == ')' || c == '[' || c == ']' || c == '-'
        || c == '*' || c == '_' || c == '"' || c == '\'' || c == '`'
}

/// Emphasis and code markers.
pub open spec fn is_emphasis(c: char) -> bool {
    c == '*' || c == '_' || c == '`'
}

/// `s` with escapes resolved and unescaped emphasis markers dropped.
pub open spec fn strip_markup(s: Seq<char>) -> Seq<char>
    decreases s.len(),
{
    if s.len() == 0 {
        seq![]
    } else if s[0] == '\\' && s.len() > 1 && is_escapable(s[1]) {
        seq![s[1]] + strip_markup(s.skip(2))
    } else if is_emphasis(s[0]) {
        strip_markup(s.drop_first())
    } else {
        seq![s[0]] + strip_markup(s.drop_first())
    }
}

/// What `clean_markdown` returns: markup stripped, then trimmed.
pub open spec fn cleaned(s: Seq<char>) -> Seq<char> {
    trim(strip_markup(s))
}

fn is_escapable_char(c: char) -> (b: bool)
    ensures
        b == is_escapable(c),
{
    c == '.' || c == '!' || c == '?' || c == '(' || c == ')' || c == '[' || c == ']' || c == '-'
        || c == '*' || c == '_' || c == '"' || c == '\'' || c == '`'
}

/// `clean_markdown` on characters.
pub fn clean_chars(v: &[char]) -> (r: Vec<char>)
    ensures
        r@ == cleaned(v@),
{
    let n = v.len();
    let mut out: Vec<char> = Vec::new();
    let mut i: usize = 0;
    assert(v@.skip(0) == v@);
    while i < n
        invariant
            i <= n == v@.len(),
            out@ + strip_markup(v@.skip(i as int)) == strip_markup(v@),
        decreases n - i,
    {
        let c = v[i];
        let ghost rest = v@.skip(i as int);
        assert(rest[0] == c);
        if c == '\\' && i + 1 < n && is_escapable_char(v[i + 1]) {
            assert(rest[1] == v@[i + 1]);
            assert(rest.skip(2) == v@.skip(i + 2));
            out.push(v[i + 1]);
            i += 2;
        } else if c == '*' || c == '_' || c == '`' {
            assert(rest.drop_first() == v@.skip(i + 1));
            i += 1;
        } else {
            assert(rest.drop_first() == v@.skip(i + 1));
            out.push(c);
            i += 1;
        }
    }
    assert(v@.skip(n as int) == Seq::<char>::empty());
    assert(out@ + strip_markup(Seq::<char>::empty()) == out@);
    trim_chars(&out)
}

/// Resolves Markdown escapes, drops emphasis markers (`*`, `_`, `` ` ``)
/// and trims the result.
pub fn clean_markdown(input: &str) -> (r: String)
    ensures
        r@ == cleaned(input@),
{
    let v = chars_of(input);
    let c = clean_chars(&v);
    string_of(&c)
}

// ---------------------------------------------------------------------------
// Tagged lines
// ---------------------------------------------------------------------------

pub open spec fn question_tag() -> Seq<char> {
    seq!['q', 'u', 'e', 's', 't', 'i', 'o', 'n', ':']
}

pub open spec fn answer_tag() -> Seq<char> {
    seq!['a', 'n', 's', 'w', 'e', 'r', ':']
}

pub open spec fn control_fact_tag() -> Seq<char> {
    seq!['n', 'e', 't', ' ', 'c', 'o', 'n', 't', 'r', 'o', 'l', ' ', 'f', 'a', 'c', 't', ':']
}

pub open spec fn fact_tag() -> Seq<char> {
    seq!['f', 'a', 'c', 't', ':']
}

/// The byte offset, in the lowercase form of a line, just past the first
/// occurrence of `tag` (the offset at which the line itself is sliced).
pub open spec fn tag_end_byte(lower: Seq<char>, tag: Seq<char>) -> Option<int> {
    match find(lower, tag) {
        Some(k) => Some(byte_len(lower.take(k + tag.len())) as int),
        None => None,
    }
}

/// The ASCII digits of `s`, in order.
pub open spec fn digits_of(s: Seq<char>) -> Seq<char>
    decreases s.len(),
{
    if s.len() == 0 {
        seq![]
    } else if is_ascii_digit(s.last()) {
        digits_of(s.drop_last()).push(s.last())
    } else {
        digits_of(s.drop_last())
    }
}

/// The decimal value of a string of ASCII digits.
pub open spec fn decimal_value(d: Seq<char>) -> nat
    decreases d.len(),
{
    if d.len() == 0 {
        0
    } else {
        decimal_value(d.drop_last()) * 10 + ((d.last() as u32) - 48) as nat
    }
}

/// The question number written before the tag: its digits read as a
/// `usize`, or `next` when there are none or they overflow.
pub open spec fn question_number(before: Seq<char>, next: usize) -> usize {
    let d = digits_of(before);
    if d.len() > 0 && decimal_value(d) <= usize::MAX {
        decimal_value(d) as usize
    } else {
        next
    }
}

/// A line holding `question:` (in any case): its number and cleaned text.
pub open spec fn question_scan(line: Seq<char>, next: usize) -> LineScan<(usize, Seq<char>)> {
    question_scan_in(line, lower_case(line), next)
}

/// A question line, given its lowercase form `lower`.
pub open spec fn question_scan_in(line: Seq<char>, lower: Seq<char>, next: usize) -> LineScan<
    (usize, Seq<char>),
> {
    match find(lower, question_tag()) {
        None => LineScan::Absent,
        Some(k) => {
            let start = byte_len(lower.take(k)) as int;
            let end = byte_len(lower.take(k + question_tag().len())) as int;
            match (char_index_at_byte(line, start), char_index_at_byte(line, end)) {
                (Some(j), Some(j2)) => LineScan::Found(
                    (question_number(line.take(j), next), cleaned(line.skip(j2))),
                ),
                _ => LineScan::Unsliceable,
            }
        },
    }
}

/// The cleaned text after a tag ending at byte `end` (if any) of `line`.
pub open spec fn text_after_byte(line: Seq<char>, end: Option<int>) -> LineScan<Seq<char>> {
    match end {
        None => LineScan::Absent,
        Some(b) => match char_index_at_byte(line, b) {
            Some(j) => LineScan::Found(cleaned(line.skip(j))),
            None => LineScan::Unsliceable,
        },
    }
}

/// A line holding `answer:` (in any case): the cleaned answer text.
pub open spec fn answer_scan(line: Seq<char>) -> LineScan<Seq<char>> {
    answer_scan_in(line, lower_case(line))
}

/// An answer line, given its lowercase form `lower`.
pub open spec fn answer_scan_in(line: Seq<char>, lower: Seq<char>) -> LineScan<Seq<char>> {
    text_after_byte(line, tag_end_byte(lower, answer_tag()))
}

/// A line holding `net control fact:` or else `fact:` (in any case): the
/// cleaned fact text.
pub open spec fn fact_scan(line: Seq<char>) -> LineScan<Seq<char>> {
    fact_scan_in(line, lower_case(line))
}

/// A fact line, given its lowercase form `lower`.
pub open spec fn fact_scan_in(line: Seq<char>, lower: Seq<char>) -> LineScan<Seq<char>> {
    let end = match tag_end_byte(lower, control_fact_tag()) {
        Some(b) => Some(b),
        None => tag_end_byte(lower, fact_tag()),
    };
    text_after_byte(line, end)
}

fn question_tag_chars() -> (r: Vec<char>)
    ensures
        r@ == question_tag(),
{
    let r = vec!['q', 'u', 'e', 's', 't', 'i', 'o', 'n', ':'];
    assert(r@ == question_tag());
    r
}

fn answer_tag_chars() -> (r: Vec<char>)
    ensures
        r@ == answer_tag(),
{
    let r = vec!['a', 'n', 's', 'w', 'e', 'r', ':'];
    assert(r@ == answer_tag());
    r
}

fn control_fact_tag_chars() -> (r: Vec<char>)
    ensures
        r@ == control_fact_tag(),
{
    let r = vec![
        'n',
        'e',
        't',
        ' ',
        'c',
        'o',
        'n',
        't',
        'r',
        'o',
        'l',
        ' ',
        'f',
        'a',
        'c',
        't',
        ':',
    ];
    assert(r@ == control_fact_tag());
    r
}

fn fact_tag_chars() -> (r: Vec<char>)
    ensures
        r@ == fact_tag(),
{
    let r = vec!['f', 'a', 'c', 't', ':'];
    assert(r@ == fact_tag());
    r
}

/// The lowercase form of `v`, as `str::to_lowercase` gives it.
fn lowercase_chars(v: &[char]) -> (r: Vec<char>)
    ensures
        r@ == lower_case(v@),
        is_ascii_text(v@) ==> r@ == ascii_lower(v@),
        byte_len(r@) <= usize::MAX,
{
    let s = string_of(v);
    let l = to_lowercase(s.as_str());
    let _n = str_byte_len(l.as_str());
    chars_of(l.as_str())
}

/// The byte length of the first `k` characters of `v`.
fn prefix_byte_len(v: &[char], k: usize) -> (n: usize)
    requires
        k <= v@.len(),
        byte_len(v@) <= usize::MAX,
    ensures
        n == byte_len(v@.take(k as int)),
{
    let mut i: usize = 0;
    let mut acc: usize = 0;
    assert(v@.take(0) == Seq::<char>::empty());
    while i < k
        invariant
            i <= k <= v@.len(),
            byte_len(v@) <= usize::MAX,
            acc == byte_len(v@.take(i as int)),
        decreases k - i,
    {
        proof {
            lemma_byte_len_take_step(v@, i as int);
            lemma_byte_len_concat(v@.take(i + 1), v@.skip(i + 1));
            assert(v@.take(i + 1) + v@.skip(i + 1) == v@);
        }
        acc += crate::text::char_width(v[i]);
        i += 1;
    }
    acc
}

/// The end byte of the first occurrence of `tag` in `lower`.
fn tag_end(lower: &[char], tag: &[char]) -> (r: Option<usize>)
    requires
        byte_len(lower@) <= usize::MAX,
    ensures
        r is Some <==> tag_end_byte(lower@, tag@) is Some,
        r matches Some(b) ==> tag_end_byte(lower@, tag@) == Some(b as int),
{
    match find_chars(lower, tag) {
        Some(k) => {
            proof {
                crate::text::lemma_find_fits(lower@, tag@);
            }
            let n = lower.len();
            let m = tag.len();
            assert(k + m <= n);
            Some(prefix_byte_len(lower, k + m))
        },
        None => None,
    }
}

/// The question number spelled by the digits of `before`.
fn number_from_digits(before: &[char], next: usize) -> (n: usize)
    ensures
        n == question_number(before@, next),
{
    let len = before.len();
    let mut i: usize = 0;
    let mut count: usize = 0;
    let mut acc: Option<usize> = Some(0);
    assert(before@.take(0) == Seq::<char>::empty());
    while i < len
        invariant
            i <= len == before@.len(),
            count == digits_of(before@.take(i as int)).len(),
            count <= i,
            match acc {
                Some(a) => a == decimal_value(digits_of(before@.take(i as int))),
                None => decimal_value(digits_of(before@.take(i as int))) > usize::MAX,
            },
        decreases len - i,
    {
        let c = before[i];
        let ghost old_d = digits_of(before@.take(i as int));
        assert(before@.take(i + 1).drop_last() == before@.take(i as int));
        assert(before@.take(i + 1).last() == c);
        if '0' <= c && c <= '9' {
            let d = (c as u32 - 48) as usize;
            let ghost new_d = old_d.push(c);
            assert(digits_of(before@.take(i + 1)) == new_d);
            assert(new_d.drop_last() == old_d);
            assert(decimal_value(new_d) == decimal_value(old_d) * 10 + d);
            acc = match acc {
                Some(a) => {
                    if a <= (usize::MAX - d) / 10 {
                        Some(a * 10 + d)
                    } else {
                        None
                    }
                },
                None => None,
            };
            count += 1;
        }
        i += 1;
    }
    assert(before@.take(len as int) == before@);
    if count > 0 {
        match acc {
            Some(a) => a,
            None => next,
        }
    } else {
        next
    }
}

/// Parses a question line: its number (explicit digits before the tag, or
/// `next_num`) and the cleaned question text after the tag.
fn parse_question_line(line: &[char], next_num: usize) -> (r: LineScan<(usize, Vec<char>)>)
    ensures
        match question_scan(line@, next_num) {
            LineScan::Absent => r is Absent,
            LineScan::Unsliceable => r is Unsliceable,
            LineScan::Found((n, q)) => r matches LineScan::Found((rn, rq)) && rn == n && rq@ == q,
        },
        is_ascii_text(line@) ==> question_scan(line@, next_num) == question_scan_in(
            line@,
            ascii_lower(line@),
            next_num,
        ) && !(r is Unsliceable),
{
    let lower = lowercase_chars(line);
    proof {
        if is_ascii_text(line@) {
            law_ascii_lowercase_keeps_offsets(line@);
            law_question_line_at_tag(line@, lower@, next_num);
        }
    }
    scan_question_line(line, &lower, next_num)
}

/// Scans a line for a question, given the line's lowercase form.
pub fn scan_question_line(line: &[char], lower: &[char], next_num: usize) -> (r: LineScan<(usize, Vec<char>)>)
    requires
        byte_len(lower@) <= usize::MAX,
    ensures
        match question_scan_in(line@, lower@, next_num) {
            LineScan::Absent => r is Absent,
            LineScan::Unsliceable => r is Unsliceable,
            LineScan::Found((n, q)) => r matches LineScan::Found((rn, rq)) && rn == n && rq@ == q,
        },
{
    let tag = question_tag_chars();
    match find_chars(lower, &tag) {
        None => LineScan::Absent,
        Some(k) => {
            proof {
                crate::text::lemma_find_fits(lower@, tag@);
            }
            let n = lower.len();
            let m = tag.len();
            assert(k + m <= n);
            let start = prefix_byte_len(lower, k);
            let end = prefix_byte_len(lower, k + m);
            let j = char_index_of_byte(line, start);
            let j2 = char_index_of_byte(line, end);
            match (j, j2) {
                (Some(j), Some(j2)) => {
                    proof {
                        crate::text::lemma_char_index_at_byte_prefix(line@, start as int);
                        crate::text::lemma_char_index_at_byte_prefix(line@, end as int);
                    }
                    let before = crate::text::sub_chars(line, 0, j);
                    let after = crate::text::sub_chars(line, j2, line.len());
                    assert(before@ == line@.take(j as int));
                    assert(after@ == line@.skip(j2 as int));
                    let num = number_from_digits(&before, next_num);
                    LineScan::Found((num, clean_chars(&after)))
                },
                _ => LineScan::Unsliceable,
            }
        },
    }
}

/// The cleaned text of `line` after byte `end`.
fn text_after(line: &[char], end: Option<usize>) -> (r: LineScan<Vec<char>>)
    ensures
        match text_after_byte(
            line@,
            match end {
                Some(b) => Some(b as int),
                None => None,
            },
        ) {
            LineScan::Absent => r is Absent,
            LineScan::Unsliceable => r is Unsliceable,
            LineScan::Found(t) => r matches LineScan::Found(rt) && rt@ == t,
        },
{
    match end {
        None => LineScan::Absent,
        Some(b) => match char_index_of_byte(line, b) {
            Some(j) => {
                proof {
                    crate::text::lemma_char_index_at_byte_prefix(line@, b as int);
                }
                let after = crate::text::sub_chars(line, j, line.len());
                assert(after@ == line@.skip(j as int));
                LineScan::Found(clean_chars(&after))
            },
            None => LineScan::Unsliceable,
        },
    }
}

/// Parses an answer line: the cleaned text after `answer:`.
fn parse_answer_line(line: &[char]) -> (r: LineScan<Vec<char>>)
    ensures
        match answer_scan(line@) {
            LineScan::Absent => r is Absent,
            LineScan::Unsliceable => r is Unsliceable,
            LineScan::Found(t) => r matches LineScan::Found(rt) && rt@ == t,
        },
        is_ascii_text(line@) ==> answer_scan(line@) == answer_scan_in(line@, ascii_lower(line@))
            && !(r is Unsliceable),
{
    let lower = lowercase_chars(line);
    proof {
        if is_ascii_text(line@) {
            law_ascii_lowercase_keeps_offsets(line@);
            law_answer_line_at_tag(line@, lower@);
        }
    }
    scan_answer_line(line, &lower)
}

/// Scans a line for an answer, given the line's lowercase form.
pub fn scan_answer_line(line: &[char], lower: &[char]) -> (r: LineScan<Vec<char>>)
    requires
        byte_len(lower@) <= usize::MAX,
    ensures
        match answer_scan_in(line@, lower@) {
            LineScan::Absent => r is Absent,
            LineScan::Unsliceable => r is Unsliceable,
            LineScan::Found(t) => r matches LineScan::Found(rt) && rt@ == t,
        },
{
    let tag = answer_tag_chars();
    let end = tag_end(lower, &tag);
    text_after(line, end)
}

/// Parses a fact line: the cleaned text after `net control fact:`, or else
/// after `fact:`.
fn parse_fact_line(line: &[char]) -> (r: LineScan<Vec<char>>)
    ensures
        match fact_scan(line@) {
            LineScan::Absent => r is Absent,
            LineScan::Unsliceable => r is Unsliceable,
            LineScan::Found(t) => r matches LineScan::Found(rt) && rt@ == t,
        },
        is_ascii_text(line@) ==> fact_scan(line@) == fact_scan_in(line@, ascii_lower(line@))
            && !(r is Unsliceable),
{
    let lower = lowercase_chars(line);
    proof {
        if is_ascii_text(line@) {
            law_ascii_lowercase_keeps_offsets(line@);
            law_fact_line_at_tag(line@, lower@);
        }
    }
    scan_fact_line(line, &lower)
}

/// Scans a line for a fact, given the line's lowercase form.
pub fn scan_fact_line(line: &[char], lower: &[char]) -> (r: LineScan<Vec<char>>)
    requires
        byte_len(lower@) <= usize::MAX,
    ensures
        match fact_scan_in(line@, lower@) {
            LineScan::Absent => r is Absent,
            LineScan::Unsliceable => r is Unsliceable,
            LineScan::Found(t) => r matches LineScan::Found(rt) && rt@ == t,
        },
{
    let long_tag = control_fact_tag_chars();
    let end = match tag_end(lower, &long_tag) {
        Some(b) => Some(b),
        None => {
            let short_tag = fact_tag_chars();
            tag_end(lower, &short_tag)
        },
    };
    text_after(line, end)
}

// ---------------------------------------------------------------------------
// Decks
// ---------------------------------------------------------------------------

/// `s` without its leading `#` characters.
pub open spec fn trim_hashes(s: Seq<char>) -> Seq<char>
    decreases s.len(),
{
    if s.len() > 0 && s[0] == '#' {
        trim_hashes(s.drop_first())
    } else {
        s
    }
}

/// The title a cleaned header names: the trimmed text after its first `:`
/// when that is not empty, else the whole header.
pub open spec fn header_title(c: Seq<char>) -> Seq<char> {
    match find(c, seq![':']) {
        Some(k) => {
            let rest = trim(c.skip(k + 1));
            if rest.len() > 0 {
                rest
            } else {
                c
            }
        },
        None => c,
    }
}

/// The title of a deck without a header.
pub open spec fn default_title() -> Seq<char> {
    seq!['T', 'r', 'i', 'v', 'i', 'a', ' ', 'N', 'e', 't']
}

/// `s` extended by a continuation line `c`, separated by a space unless `s`
/// is empty.
pub open spec fn append_text(s: Seq<char>, c: Seq<char>) -> Seq<char> {
    if s.len() > 0 {
        s.push(' ') + c
    } else {
        c
    }
}

/// What a continuation line `c` does to the open question: it extends the
/// part the last tag selected (0 question, 1 answer, 2 fact; a fact only
/// when one was given).
pub open spec fn continue_question(q: QuestionView, target: u8, c: Seq<char>) -> QuestionView {
    if target == 0 {
        QuestionView { question: append_text(q.question, c), ..q }
    } else if target == 1 {
        QuestionView { answer: append_text(q.answer, c), ..q }
    } else if target == 2 {
        match q.fact {
            Some(f) => QuestionView { fact: Some(f.push(' ') + c), ..q },
            None => q,
        }
    } else {
        q
    }
}

/// The parser's state between lines.
pub struct DeckState {
    pub title: Seq<char>,
    pub questions: Seq<QuestionView>,
    pub current: Option<QuestionView>,
    pub target: u8,
}

pub open spec fn initial_deck() -> DeckState {
    DeckState { title: default_title(), questions: seq![], current: None, target: 0 }
}

/// The finished questions followed by the open one, if any.
pub open spec fn with_current(questions: Seq<QuestionView>, current: Option<QuestionView>) -> Seq<
    QuestionView,
> {
    match current {
        Some(q) => questions.push(q),
        None => questions,
    }
}

/// What one raw line does to the parser's state; `None` where slicing
/// a tagged line would panic (a tag whose byte offset is not a character
/// boundary of the line).
pub open spec fn deck_step(st: DeckState, raw: Seq<char>) -> Option<DeckState> {
    let t = trim(raw);
    if t.len() == 0 {
        Some(st)
    } else if t[0] == '#' {
        let c = cleaned(trim_hashes(t));
        if c.len() == 0 {
            Some(st)
        } else {
            Some(DeckState { title: header_title(c), ..st })
        }
    } else {
        match question_scan(t, (st.questions.len() + 1) as usize) {
            LineScan::Unsliceable => None,
            LineScan::Found((n, q)) => Some(
                DeckState {
                    questions: with_current(st.questions, st.current),
                    current: Some(QuestionView { number: n, question: q, answer: seq![], fact: None }),
                    target: 0,
                    ..st
                },
            ),
            LineScan::Absent => match answer_scan(t) {
                LineScan::Unsliceable => None,
                LineScan::Found(a) => Some(
                    DeckState {
                        current: match st.current {
                            Some(q) => Some(QuestionView { answer: a, ..q }),
                            None => None,
                        },
                        target: 1,
                        ..st
                    },
                ),
                LineScan::Absent => match fact_scan(t) {
                    LineScan::Unsliceable => None,
                    LineScan::Found(f) => Some(
                        DeckState {
                            current: match st.current {
                                Some(q) => Some(QuestionView { fact: Some(f), ..q }),
                                None => None,
                            },
                            target: 2,
                            ..st
                        },
                    ),
                    LineScan::Absent => Some(
                        DeckState {
                            current: match st.current {
                                Some(q) => Some(continue_question(q, st.target, cleaned(t))),
                                None => None,
                            },
                            ..st
                        },
                    ),
                },
            },
        }
    }
}

/// The state after all `lines`, or `None` if one of them panics.
pub open spec fn deck_run(st: DeckState, lines: Seq<Seq<char>>) -> Option<DeckState>
    decreases lines.len(),
{
    if lines.len() == 0 {
        Some(st)
    } else {
        match deck_step(st, lines[0]) {
            Some(next) => deck_run(next, lines.drop_first()),
            None => None,
        }
    }
}

/// The deck that `content` describes, or `None` where parsing it panics.
pub open spec fn parsed_deck(content: Seq<char>) -> Option<TopicView> {
    match deck_run(initial_deck(), split_lines(content)) {
        Some(st) => Some(TopicView { title: st.title, questions: with_current(st.questions, st.current) }),
        None => None,
    }
}

fn trim_hashes_chars(v: &[char]) -> (r: Vec<char>)
    ensures
        r@ == trim_hashes(v@),
{
    let n = v.len();
    let mut i: usize = 0;
    assert(v@.skip(0) == v@);
    while i < n && v[i] == '#'
        invariant
            i <= n == v@.len(),
            trim_hashes(v@) == trim_hashes(v@.skip(i as int)),
        decreases n - i,
    {
        assert(v@.skip(i as int).drop_first() == v@.skip(i + 1));
        i += 1;
    }
    crate::text::sub_chars(v, i, n)
}

fn header_title_chars(c: &[char]) -> (r: Vec<char>)
    ensures
        r@ == header_title(c@),
{
    let colon = vec![':'];
    assert(colon@ == seq![':']);
    match find_chars(c, &colon) {
        Some(k) => {
            proof {
                crate::text::lemma_find_fits(c@, colon@);
            }
            let n = c.len();
            assert(k + 1 <= n);
            let rest = crate::text::sub_chars(c, k + 1, n);
            assert(rest@ == c@.skip(k + 1));
            let t = trim_chars(&rest);
            if t.len() > 0 {
                t
            } else {
                crate::text::sub_chars(c, 0, c.len())
            }
        },
        None => crate::text::sub_chars(c, 0, c.len()),
    }
}

/// Appends the characters of `v` to `s`.
fn append_chars(s: &mut String, v: &[char])
    ensures
        final(s)@ == old(s)@ + v@,
{
    let n = v.len();
    let mut i: usize = 0;
    while i < n
        invariant
            i <= n == v@.len(),
            s@ == old(s)@ + v@.take(i as int),
        decreases n - i,
    {
        push_char(s, v[i]);
        assert(v@.take(i + 1) == v@.take(i as int).push(v@[i as int]));
        i += 1;
    }
    assert(v@.take(n as int) == v@);
}

/// The parser's state as a builder.
struct DeckBuilder {
    title: Vec<char>,
    questions: Vec<TriviaQuestion>,
    current: Option<TriviaQuestion>,
    target: u8,
}

pub open spec fn opt_question_view(q: Option<TriviaQuestion>) -> Option<QuestionView> {
    match q {
        Some(x) => Some(x@),
        None => None,
    }
}

impl View for DeckBuilder {
    type V = DeckState;

    closed spec fn view(&self) -> DeckState {
        DeckState {
            title: self.title@,
            questions: questions_view(self.questions@),
            current: opt_question_view(self.current),
            target: self.target,
        }
    }
}

impl DeckBuilder {
    /// Questions finished or open.
    closed spec fn count(&self) -> nat {
        self.questions@.len() + if self.current is Some {
            1nat
        } else {
            0nat
        }
    }

    fn new() -> (b: Self)
        ensures
            b@ == initial_deck(),
            b.count() == 0,
    {
        let title = vec!['T', 'r', 'i', 'v', 'i', 'a', ' ', 'N', 'e', 't'];
        assert(title@ == default_title());
        let b = DeckBuilder { title, questions: Vec::new(), current: None, target: 0 };
        assert(questions_view(b.questions@) == Seq::<QuestionView>::empty());
        b
    }

    /// Feeds one raw line; `false` where the line cannot be sliced at its
    /// tag's byte offset.
    fn step(&mut self, raw: &[char]) -> (ok: bool)
        requires
            old(self).count() < usize::MAX,
        ensures
            ok == deck_step(old(self)@, raw@) is Some,
            ok ==> final(self)@ == deck_step(old(self)@, raw@)->0,
            final(self).count() <= old(self).count() + 1,
            is_ascii_text(raw@) ==> ok,
    {
        let t = trim_chars(raw);
        proof {
            lemma_trim_keeps_ascii(raw@);
        }
        if t.len() == 0 {
            return true;
        }
        if t[0] == '#' {
            let h = trim_hashes_chars(&t);
            let c = clean_chars(&h);
            if c.len() > 0 {
                self.title = header_title_chars(&c);
            }
            return true;
        }
        let next = self.questions.len() + 1;
        match parse_question_line(&t, next) {
            LineScan::Unsliceable => {
                return false;
            },
            LineScan::Found((num, q)) => {
                let prev = self.current.take();
                let ghost old_qs = questions_view(self.questions@);
                match prev {
                    Some(p) => {
                        self.questions.push(p);
                        assert(questions_view(self.questions@) == old_qs.push(p@));
                    },
                    None => {},
                }
                let fresh = TriviaQuestion {
                    number: num,
                    question: string_of(&q),
                    answer: String::new(),
                    fact: None,
                };
                self.current = Some(fresh);
                self.target = 0;
                return true;
            },
            LineScan::Absent => {},
        }
        match parse_answer_line(&t) {
            LineScan::Unsliceable => {
                return false;
            },
            LineScan::Found(a) => {
                let cur = self.current.take();
                self.current = match cur {
                    Some(q) => Some(TriviaQuestion { answer: string_of(&a), ..q }),
                    None => None,
                };
                self.target = 1;
                return true;
            },
            LineScan::Absent => {},
        }
        match parse_fact_line(&t) {
            LineScan::Unsliceable => {
                return false;
            },
            LineScan::Found(f) => {
                let cur = self.current.take();
                self.current = match cur {
                    Some(q) => Some(TriviaQuestion { fact: Some(string_of(&f)), ..q }),
                    None => None,
                };
                self.target = 2;
                return true;
            },
            LineScan::Absent => {},
        }
        let c = clean_chars(&t);
        let cur = self.current.take();
        self.current = match cur {
            Some(q) => Some(continue_with(q, self.target, &c)),
            None => None,
        };
        true
    }

    fn finish(self) -> (t: TriviaTopic)
        ensures
            t@ == (TopicView { title: self@.title, questions: with_current(self@.questions, self@.current) }),
    {
        let mut questions = self.questions;
        let ghost old_qs = questions_view(questions@);
        match self.current {
            Some(q) => {
                questions.push(q);
                assert(questions_view(questions@) == old_qs.push(q@));
            },
            None => {},
        }
        TriviaTopic { title: string_of(&self.title), questions }
    }
}

/// Extends the open question by a continuation line.
fn continue_with(q: TriviaQuestion, target: u8, c: &[char]) -> (r: TriviaQuestion)
    ensures
        r@ == continue_question(q@, target, c@),
{
    let mut q = q;
    if target == 0 {
        if !q.question.as_str().is_empty() {
            push_char(&mut q.question, ' ');
        }
        append_chars(&mut q.question, c);
    } else if target == 1 {
        if !q.answer.as_str().is_empty() {
            push_char(&mut q.answer, ' ');
        }
        append_chars(&mut q.answer, c);
    } else if target == 2 {
        let f = q.fact.take();
        q.fact = match f {
            Some(mut text) => {
                push_char(&mut text, ' ');
                append_chars(&mut text, c);
                Some(text)
            },
            None => None,
        };
    }
    q
}

impl TriviaTopic {
    /// A deck with the given title and questions.
    pub fn new(title: String, questions: Vec<TriviaQuestion>) -> (t: Self)
        ensures
            t.title == title,
            t.questions == questions,
    {
        Self { title, questions }
    }

    /// Parses a Markdown deck, or `None` where a tagged line cannot be
    /// sliced at the tag's byte offset.
    pub fn try_parse_markdown(content: &str) -> (r: Option<Self>)
        ensures
            r is Some <==> parsed_deck(content@) is Some,
            r matches Some(t) ==> t@ == parsed_deck(content@)->0,
            is_ascii_text(content@) ==> r is Some,
    {
        proof {
            if is_ascii_text(content@) {
                lemma_lines_keep_ascii(seq![], content@);
            }
        }
        let chars = chars_of(content);
        let lines = split_lines_chars(&chars);
        let ghost all = split_lines(content@);
        let mut b = DeckBuilder::new();
        let n = lines.len();
        let mut i: usize = 0;
        assert(all.skip(0) == all);
        while i < n
            invariant
                i <= n == lines@.len(),
                lines@.map_values(|l: Vec<char>| l@) == all,
                deck_run(initial_deck(), all) == deck_run(b@, all.skip(i as int)),
                all == split_lines(content@),
                b.count() <= i,
                is_ascii_text(content@) ==> forall|k: int|
                    0 <= k < all.len() ==> is_ascii_text(#[trigger] all[k]),
            decreases n - i,
        {
            let ghost before = b@;
            assert(all.skip(i as int)[0] == lines@[i as int]@);
            assert(all.skip(i as int).drop_first() == all.skip(i + 1));
            assert(lines[i as int]@ == all[i as int]);
            let ok = b.step(lines[i].as_slice());
            if !ok {
                assert(deck_run(before, all.skip(i as int)) is None);
                return None;
            }
            i += 1;
        }
        assert(all.skip(n as int) == Seq::<Seq<char>>::empty());
        Some(b.finish())
    }

    /// Parses a Markdown deck: `#` headers give the title (the part after
    /// a colon when there is one), `Question:` lines open numbered
    /// questions, `Answer:` and `Fact:`/`Net Control Fact:` lines fill them
    /// in, and other lines continue the part last tagged.
    pub fn parse_markdown(content: &str) -> (t: Self)
        requires
            parsed_deck(content@) is Some || is_ascii_text(content@),
        ensures
            parsed_deck(content@) == Some(t@),
    {
        Self::try_parse_markdown(content).unwrap()
    }
}

// ---------------------------------------------------------------------------
// Laws
// ---------------------------------------------------------------------------

/// A raw line that opens a question: not blank, not a header, and holding
/// `question:` in some case.
pub open spec fn opens_question(raw: Seq<char>) -> bool {
    let t = trim(raw);
    t.len() > 0 && t[0] != '#' && find(lower_case(t), question_tag()) is Some
}

/// The number of lines that open a question.
pub open spec fn question_line_count(lines: Seq<Seq<char>>) -> nat
    decreases lines.len(),
{
    if lines.len() == 0 {
        0
    } else {
        (if opens_question(lines[0]) {
            1nat
        } else {
            0nat
        }) + question_line_count(lines.drop_first())
    }
}

proof fn lemma_step_counts_questions(st: DeckState, raw: Seq<char>)
    requires
        deck_step(st, raw) is Some,
    ensures
        with_current(deck_step(st, raw)->0.questions, deck_step(st, raw)->0.current).len()
            == with_current(st.questions, st.current).len() + if opens_question(raw) {
            1int
        } else {
            0int
        },
{
}

proof fn lemma_run_counts_questions(st: DeckState, lines: Seq<Seq<char>>)
    requires
        deck_run(st, lines) is Some,
    ensures
        with_current(deck_run(st, lines)->0.questions, deck_run(st, lines)->0.current).len()
            == with_current(st.questions, st.current).len() + question_line_count(lines),
    decreases lines.len(),
{
    if lines.len() > 0 {
        lemma_step_counts_questions(st, lines[0]);
        lemma_run_counts_questions(deck_step(st, lines[0])->0, lines.drop_first());
    }
}

/// Every line that opens a question yields exactly one question of the
/// parsed deck, and no other line does.
pub proof fn law_one_question_per_question_line(content: Seq<char>)
    requires
        parsed_deck(content) is Some,
    ensures
        parsed_deck(content)->0.questions.len() == question_line_count(split_lines(content)),
{
    lemma_run_counts_questions(initial_deck(), split_lines(content));
}

/// `raw` is a non-header line whose lowercase form holds `tag`.
pub open spec fn tagged_line(raw: Seq<char>, tag: Seq<char>) -> bool {
    let t = trim(raw);
    t.len() > 0 && t[0] != '#' && find(lower_case(t), tag) is Some
}

/// Before the first question line nothing but headers leaves a trace:
/// while no question is open, lines without a question tag add no
/// question and open none.
pub proof fn law_lines_before_first_question(st: DeckState, lines: Seq<Seq<char>>)
    requires
        st.current is None,
        forall|i: int| 0 <= i < lines.len() ==> !tagged_line(#[trigger] lines[i], question_tag()),
        deck_run(st, lines) is Some,
    ensures
        deck_run(st, lines)->0.questions == st.questions,
        deck_run(st, lines)->0.current is None,
    decreases lines.len(),
{
    if lines.len() > 0 {
        assert(!tagged_line(lines[0], question_tag()));
        let next = deck_step(st, lines[0])->0;
        assert forall|i: int| 0 <= i < lines.drop_first().len() implies !tagged_line(
            #[trigger] lines.drop_first()[i],
            question_tag(),
        ) by {
            assert(lines.drop_first()[i] == lines[i + 1]);
        }
        law_lines_before_first_question(next, lines.drop_first());
    }
}

/// A question gets an answer or a fact only from a line tagged for it:
/// after a question line, lines without a question, answer or fact tag
/// leave its answer empty and its fact absent, and finish no question.
pub proof fn law_answer_and_fact_need_their_tags(st: DeckState, lines: Seq<Seq<char>>)
    requires
        st.current matches Some(q) && q.answer.len() == 0 && q.fact is None,
        st.target != 1,
        forall|i: int|
            0 <= i < lines.len() ==> {
                &&& !tagged_line(#[trigger] lines[i], question_tag())
                &&& !tagged_line(lines[i], answer_tag())
                &&& !tagged_line(lines[i], fact_tag())
                &&& !tagged_line(lines[i], control_fact_tag())
            },
        deck_run(st, lines) is Some,
    ensures
        deck_run(st, lines)->0.questions == st.questions,
        deck_run(st, lines)->0.current matches Some(q2) && q2.number == st.current->0.number
            && q2.answer.len() == 0 && q2.fact is None,
    decreases lines.len(),
{
    if lines.len() > 0 {
        assert(!tagged_line(lines[0], question_tag()));
        assert(!tagged_line(lines[0], answer_tag()));
        assert(!tagged_line(lines[0], fact_tag()));
        assert(!tagged_line(lines[0], control_fact_tag()));
        let next = deck_step(st, lines[0])->0;
        assert forall|i: int| 0 <= i < lines.drop_first().len() implies {
            &&& !tagged_line(#[trigger] lines.drop_first()[i], question_tag())
            &&& !tagged_line(lines.drop_first()[i], answer_tag())
            &&& !tagged_line(lines.drop_first()[i], fact_tag())
            &&& !tagged_line(lines.drop_first()[i], control_fact_tag())
        } by {
            assert(lines.drop_first()[i] == lines[i + 1]);
        }
        law_answer_and_fact_need_their_tags(next, lines.drop_first());
    }
}

/// A plain line (not blank, not a header, without any tag) continues the
/// part of the open question that the last tag selected: its cleaned text
/// becomes that part when the part is empty, and is added after a space
/// otherwise; a fact continues only when there is one. Nothing else
/// changes.
pub proof fn law_continuation_line_appends(st: DeckState, raw: Seq<char>)
    requires
        st.current is Some,
        trim(raw).len() > 0,
        trim(raw)[0] != '#',
        !tagged_line(raw, question_tag()),
        !tagged_line(raw, answer_tag()),
        !tagged_line(raw, fact_tag()),
        !tagged_line(raw, control_fact_tag()),
    ensures
        deck_step(st, raw) is Some,
        ({
            let st2 = deck_step(st, raw)->0;
            let q = st.current->0;
            let c = cleaned(trim(raw));
            &&& st2.questions == st.questions
            &&& st2.title == st.title
            &&& st2.target == st.target
            &&& st2.current matches Some(q2) && q2.number == q.number && {
                if st.target == 0 {
                    &&& q2.question == if q.question.len() == 0 {
                        c
                    } else {
                        q.question + seq![' '] + c
                    }
                    &&& q2.answer == q.answer
                    &&& q2.fact == q.fact
                } else if st.target == 1 {
                    &&& q2.answer == if q.answer.len() == 0 {
                        c
                    } else {
                        q.answer + seq![' '] + c
                    }
                    &&& q2.question == q.question
                    &&& q2.fact == q.fact
                } else if st.target == 2 {
                    &&& q2.fact == match q.fact {
                        Some(f) => Some(f + seq![' '] + c),
                        None => None,
                    }
                    &&& q2.question == q.question
                    &&& q2.answer == q.answer
                } else {
                    q2 == q
                }
            }
        }),
{
    let q = st.current->0;
    let c = cleaned(trim(raw));
    assert(q.question.push(' ') + c == q.question + seq![' '] + c);
    assert(q.answer.push(' ') + c == q.answer + seq![' '] + c);
    if let Some(f) = q.fact {
        assert(f.push(' ') + c == f + seq![' '] + c);
    }
}

/// An answer line (one without a question tag) gives its text to the
/// question opened last, and a fact line (one without a question or answer
/// tag) its fact; the finished questions stay as they were.
pub proof fn law_tagged_lines_fill_open_question(st: DeckState, raw: Seq<char>)
    requires
        st.current is Some,
        tagged_line(raw, answer_tag()) || tagged_line(raw, fact_tag()) || tagged_line(
            raw,
            control_fact_tag(),
        ),
        !tagged_line(raw, question_tag()),
        deck_step(st, raw) is Some,
    ensures
        deck_step(st, raw)->0.questions == st.questions,
        deck_step(st, raw)->0.current matches Some(q2) && q2.number == st.current->0.number
            && q2.question == st.current->0.question,
        tagged_line(raw, answer_tag()) ==> (answer_scan(trim(raw)) matches LineScan::Found(a)
            && deck_step(st, raw)->0.current->0.answer == a && deck_step(st, raw)->0.current->0.fact
            == st.current->0.fact),
        !tagged_line(raw, answer_tag()) ==> (fact_scan(trim(raw)) matches LineScan::Found(f)
            && deck_step(st, raw)->0.current->0.fact == Some(f)
            && deck_step(st, raw)->0.current->0.answer == st.current->0.answer),
{
}

/// Trimming from the front leaves nothing or a non-whitespace first
/// character, and keeps a property that all characters have.
proof fn lemma_trim_start_shape(s: Seq<char>, p: spec_fn(char) -> bool)
    ensures
        trim_start(s).len() == 0 || !crate::text::is_white_space(trim_start(s)[0]),
        trim_start(s).len() <= s.len(),
        (forall|i: int| 0 <= i < s.len() ==> p(#[trigger] s[i])) ==> (forall|i: int|
            0 <= i < trim_start(s).len() ==> p(#[trigger] trim_start(s)[i])),
    decreases s.len(),
{
    if s.len() > 0 && crate::text::is_white_space(s[0]) {
        lemma_trim_start_shape(s.drop_first(), p);
    }
}

/// Trimming from the back leaves a prefix: nothing, or one that ends in a
/// non-whitespace character and keeps the first character.
/// The lines of ASCII text are ASCII.
proof fn lemma_lines_keep_ascii(cur: Seq<char>, s: Seq<char>)
    requires
        is_ascii_text(cur),
        is_ascii_text(s),
    ensures
        forall|k: int| 0 <= k < lines_from(cur, s).len() ==> is_ascii_text(#[trigger] lines_from(cur, s)[k]),
    decreases s.len(),
{
    if s.len() > 0 {
        assert((s[0] as u32) < 128);
        assert(is_ascii_text(s.drop_first())) by {
            assert forall|i: int| 0 <= i < s.drop_first().len() implies (#[trigger] s.drop_first()[i] as u32) < 128 by {
                assert(s.drop_first()[i] == s[i + 1]);
            }
        }
        if s[0] == '\n' {
            lemma_lines_keep_ascii(seq![], s.drop_first());
            let l = strip_cr(cur);
            assert(is_ascii_text(l)) by {
                assert forall|i: int| 0 <= i < l.len() implies (#[trigger] l[i] as u32) < 128 by {
                    assert(l[i] == cur[i]);
                }
            }
            let rest = lines_from(seq![], s.drop_first());
            assert(lines_from(cur, s) == seq![l] + rest);
            assert forall|k: int| 0 <= k < lines_from(cur, s).len() implies is_ascii_text(
                #[trigger] lines_from(cur, s)[k],
            ) by {
                if k > 0 {
                    assert(lines_from(cur, s)[k] == rest[k - 1]);
                } else {
                    assert(lines_from(cur, s)[k] == l);
                }
            }
        } else {
            let c2 = cur.push(s[0]);
            assert(is_ascii_text(c2)) by {
                assert forall|i: int| 0 <= i < c2.len() implies (#[trigger] c2[i] as u32) < 128 by {
                    if i < cur.len() {
                        assert(c2[i] == cur[i]);
                    }
                }
            }
            lemma_lines_keep_ascii(c2, s.drop_first());
            assert(lines_from(cur, s) == lines_from(c2, s.drop_first()));
        }
    } else if cur.len() > 0 {
        assert(lines_from(cur, s) == seq![cur]);
    }
}

/// Trimming ASCII text leaves ASCII text.
pub proof fn lemma_trim_keeps_ascii(s: Seq<char>)
    ensures
        is_ascii_text(s) ==> is_ascii_text(trim(s)),
{
    let p = |c: char| (c as u32) < 128;
    lemma_trim_start_shape(s, p);
    lemma_trim_end_shape(trim_start(s), p);
    if is_ascii_text(s) {
        assert forall|i: int| 0 <= i < s.len() implies p(#[trigger] s[i]) by {}
        assert forall|i: int| 0 <= i < trim(s).len() implies (#[trigger] trim(s)[i] as u32) < 128 by {
            assert(p(trim(s)[i]));
        }
    }
}

proof fn lemma_trim_end_shape(s: Seq<char>, p: spec_fn(char) -> bool)
    ensures
        trim_end(s).len() == 0 || !crate::text::is_white_space(trim_end(s).last()),
        trim_end(s).len() <= s.len(),
        trim_end(s) == s.take(trim_end(s).len() as int),
        (forall|i: int| 0 <= i < s.len() ==> p(#[trigger] s[i])) ==> (forall|i: int|
            0 <= i < trim_end(s).len() ==> p(#[trigger] trim_end(s)[i])),
    decreases s.len(),
{
    if s.len() > 0 && crate::text::is_white_space(s.last()) {
        lemma_trim_end_shape(s.drop_last(), p);
        assert(s.drop_last().take(trim_end(s).len() as int) == s.take(trim_end(s).len() as int));
    } else {
        assert(s.take(s.len() as int) == s);
    }
}

/// Trimming twice is trimming once.
pub proof fn law_trim_idempotent(s: Seq<char>)
    ensures
        trim(trim(s)) == trim(s),
{
    let p = |c: char| true;
    lemma_trim_start_shape(s, p);
    let a = trim_start(s);
    lemma_trim_end_shape(a, p);
    let t = trim(s);
    if t.len() > 0 {
        assert(t[0] == a[0]);
        assert(trim_start(t) == t);
        assert(trim_end(t) == t);
    } else {
        assert(trim_start(t) == t);
    }
}

/// `strip_markup` of text without backslashes has no emphasis markers.
proof fn lemma_strip_markup_plain(s: Seq<char>)
    requires
        forall|i: int| 0 <= i < s.len() ==> #[trigger] s[i] != '\\',
    ensures
        forall|i: int|
            0 <= i < strip_markup(s).len() ==> !is_emphasis(#[trigger] strip_markup(s)[i]),
    decreases s.len(),
{
    if s.len() > 0 {
        lemma_strip_markup_plain(s.drop_first());
        let r = strip_markup(s.drop_first());
        if !is_emphasis(s[0]) {
            assert forall|i: int| 0 <= i < strip_markup(s).len() implies !is_emphasis(
                #[trigger] strip_markup(s)[i],
            ) by {
                if i > 0 {
                    assert(strip_markup(s)[i] == r[i - 1]);
                }
            }
        }
    }
}

/// A backslash before Markdown punctuation (`. ! ? ( ) [ ] - * _ " ' `` ` ``)
/// is dropped and the character kept as it is, wherever it stands in the
/// text; on its own such an escape cleans to just that character.
pub proof fn law_escaped_punctuation_comes_out_bare(c: char, rest: Seq<char>)
    requires
        c == '.' || c == '!' || c == '?' || c == '(' || c == ')' || c == '[' || c == ']' || c
            == '-' || c == '*' || c == '_' || c == '"' || c == '\'' || c == '`',
    ensures
        strip_markup(seq!['\\', c] + rest) == seq![c] + strip_markup(rest),
        cleaned(seq!['\\', c]) == seq![c],
{
    let s = seq!['\\', c] + rest;
    assert(s[0] == '\\' && s[1] == c);
    assert(s.skip(2) == rest);
    let one = seq!['\\', c];
    assert(one[0] == '\\' && one[1] == c && one.len() == 2);
    assert(is_escapable(c));
    assert(one.skip(2) == Seq::<char>::empty());
    assert(strip_markup(one.skip(2)) == Seq::<char>::empty());
    assert(strip_markup(one) == seq![c] + Seq::<char>::empty());
    assert(seq![c] + Seq::<char>::empty() == seq![c]);
    let t = seq![c];
    assert(!crate::text::is_white_space(c));
    assert(t.drop_first().len() == 0);
    assert(trim_start(t) == t);
    assert(t.last() == c);
    assert(trim_end(t) == t);
}

/// Character by character, cleaning drops the emphasis markers `*`, `_`
/// and `` ` `` and keeps every other character that is not a backslash;
/// a backslash stays, with the character after it, unless that character
/// is Markdown punctuation.
pub proof fn law_markup_characters(c: char, rest: Seq<char>)
    ensures
        c == '*' || c == '_' || c == '`' ==> strip_markup(seq![c] + rest) == strip_markup(rest),
        c != '*' && c != '_' && c != '`' && c != '\\' ==> strip_markup(seq![c] + rest) == seq![c]
            + strip_markup(rest),
        !(c == '.' || c == '!' || c == '?' || c == '(' || c == ')' || c == '[' || c == ']' || c
            == '-' || c == '*' || c == '_' || c == '"' || c == '\'' || c == '`') ==> strip_markup(
            seq!['\\', c] + rest,
        ) == seq!['\\'] + strip_markup(seq![c] + rest),
        strip_markup(seq!['\\']) == seq!['\\'],
{
    let s = seq![c] + rest;
    assert(s[0] == c);
    assert(s.drop_first() == rest);
    let e = seq!['\\', c] + rest;
    assert(e[0] == '\\' && e[1] == c);
    assert(e.drop_first() == s);
    let b = seq!['\\'];
    assert(b.drop_first() == Seq::<char>::empty());
    assert(strip_markup(b.drop_first()) == Seq::<char>::empty());
    assert(seq!['\\'] + Seq::<char>::empty() == seq!['\\']);
}

/// `s` with every `*`, `_` and `` ` `` left out.
pub open spec fn without_emphasis(s: Seq<char>) -> Seq<char>
    decreases s.len(),
{
    if s.len() == 0 {
        seq![]
    } else if is_emphasis(s[0]) {
        without_emphasis(s.drop_first())
    } else {
        seq![s[0]] + without_emphasis(s.drop_first())
    }
}

proof fn lemma_strip_markup_is_filter(s: Seq<char>)
    requires
        forall|i: int| 0 <= i < s.len() ==> #[trigger] s[i] != '\\',
    ensures
        strip_markup(s) == without_emphasis(s),
    decreases s.len(),
{
    if s.len() > 0 {
        assert(s[0] != '\\');
        assert forall|i: int| 0 <= i < s.drop_first().len() implies #[trigger] s.drop_first()[i]
            != '\\' by {
            assert(s.drop_first()[i] == s[i + 1]);
        }
        lemma_strip_markup_is_filter(s.drop_first());
    }
}

/// For text without backslashes, cleaning is dropping every `*`, `_` and
/// `` ` `` and then trimming.
pub proof fn law_cleaned_plain_text(s: Seq<char>)
    requires
        forall|i: int| 0 <= i < s.len() ==> #[trigger] s[i] != '\\',
    ensures
        cleaned(s) == trim(without_emphasis(s)),
{
    lemma_strip_markup_is_filter(s);
}

/// Cleaned text is already trimmed, and text without backslashes comes out
/// free of `*`, `_` and `` ` ``.
pub proof fn law_cleaned_text_shape(s: Seq<char>)
    ensures
        trim(cleaned(s)) == cleaned(s),
        (forall|i: int| 0 <= i < s.len() ==> #[trigger] s[i] != '\\') ==> forall|i: int|
            0 <= i < cleaned(s).len() ==> !is_emphasis(#[trigger] cleaned(s)[i]),
{
    law_trim_idempotent(strip_markup(s));
    if forall|i: int| 0 <= i < s.len() ==> #[trigger] s[i] != '\\' {
        lemma_strip_markup_plain(s);
        let p = |c: char| !is_emphasis(c);
        let m = strip_markup(s);
        assert forall|i: int| 0 <= i < m.len() implies p(#[trigger] m[i]) by {}
        lemma_trim_start_shape(m, p);
        lemma_trim_end_shape(trim_start(m), p);
    }
}

/// The title a raw line sets, if it is a header with text.
pub open spec fn header_of(raw: Seq<char>) -> Option<Seq<char>> {
    let t = trim(raw);
    if t.len() > 0 && t[0] == '#' {
        let c = cleaned(trim_hashes(t));
        if c.len() > 0 {
            Some(header_title(c))
        } else {
            None
        }
    } else {
        None
    }
}

/// The title after `lines`, starting from `title`: the one the last header
/// with text sets.
pub open spec fn last_title(title: Seq<char>, lines: Seq<Seq<char>>) -> Seq<char>
    decreases lines.len(),
{
    if lines.len() == 0 {
        title
    } else {
        last_title(
            match header_of(lines[0]) {
                Some(h) => h,
                None => title,
            },
            lines.drop_first(),
        )
    }
}

proof fn lemma_run_title(st: DeckState, lines: Seq<Seq<char>>)
    requires
        deck_run(st, lines) is Some,
    ensures
        deck_run(st, lines)->0.title == last_title(st.title, lines),
    decreases lines.len(),
{
    if lines.len() > 0 {
        lemma_run_title(deck_step(st, lines[0])->0, lines.drop_first());
    }
}

/// A deck's title is set by its last header with text (the part after the
/// header's first colon, when that is not blank); without one it is
/// "Trivia Net".
pub proof fn law_title_is_last_header(content: Seq<char>)
    requires
        parsed_deck(content) is Some,
    ensures
        parsed_deck(content)->0.title == last_title(default_title(), split_lines(content)),
{
    lemma_run_title(initial_deck(), split_lines(content));
}

/// Whitespace-only lines change nothing: inserting one anywhere among the
/// lines leaves the parse as it was.
pub proof fn law_blank_lines_ignored(st: DeckState, lines: Seq<Seq<char>>, i: int, blank: Seq<char>)
    requires
        0 <= i <= lines.len(),
        trim(blank).len() == 0,
    ensures
        deck_run(st, lines.insert(i, blank)) == deck_run(st, lines),
    decreases i,
{
    let with = lines.insert(i, blank);
    if i == 0 {
        assert(with[0] == blank);
        assert(with.drop_first() == lines);
    } else {
        assert(with[0] == lines[0]);
        assert(with.drop_first() == lines.drop_first().insert(i - 1, blank));
        match deck_step(st, lines[0]) {
            Some(next) => law_blank_lines_ignored(next, lines.drop_first(), i - 1, blank),
            None => {},
        }
    }
}

/// Text that ends in a line break splits on its own: the lines of what
/// follows it start afresh.
proof fn lemma_lines_from_append(cur: Seq<char>, a: Seq<char>, r: Seq<char>)
    requires
        a.len() > 0,
        a.last() == '\n',
    ensures
        lines_from(cur, a + r) == lines_from(cur, a) + split_lines(r),
    decreases a.len(),
{
    let ar = a + r;
    assert(ar[0] == a[0]);
    assert(ar.drop_first() == a.drop_first() + r);
    if a[0] == '\n' {
        if a.len() == 1 {
            assert(a.drop_first() + r == r);
            assert(lines_from(seq![], a.drop_first()) == Seq::<Seq<char>>::empty());
        } else {
            lemma_lines_from_append(seq![], a.drop_first(), r);
        }
    } else {
        lemma_lines_from_append(cur.push(a[0]), a.drop_first(), r);
    }
}

/// A line without a break, then a break, makes exactly one line.
proof fn lemma_lines_from_single(cur: Seq<char>, w: Seq<char>)
    requires
        forall|i: int| 0 <= i < w.len() ==> #[trigger] w[i] != '\n',
    ensures
        lines_from(cur, w + seq!['\n']) == seq![strip_cr(cur + w)],
    decreases w.len(),
{
    let s = w + seq!['\n'];
    if w.len() == 0 {
        assert(s == seq!['\n']);
        assert(cur + w == cur);
        assert(s.drop_first().len() == 0);
        assert(lines_from(seq![], s.drop_first()) == Seq::<Seq<char>>::empty());
        assert(seq![strip_cr(cur)] + Seq::<Seq<char>>::empty() == seq![strip_cr(cur)]);
    } else {
        assert(w[0] != '\n');
        assert(s[0] == w[0]);
        assert(s.drop_first() == w.drop_first() + seq!['\n']);
        assert forall|i: int| 0 <= i < w.drop_first().len() implies #[trigger] w.drop_first()[i]
            != '\n' by {
            assert(w.drop_first()[i] == w[i + 1]);
        }
        lemma_lines_from_single(cur.push(w[0]), w.drop_first());
        assert(cur.push(w[0]) + w.drop_first() == cur + w);
    }
}

/// Whitespace-only lines in a deck's text change nothing: inserting one
/// at the start of the text or after any line break leaves the parse as it
/// was.
pub proof fn law_blank_text_lines_ignored(a: Seq<char>, blank: Seq<char>, b: Seq<char>)
    requires
        a.len() == 0 || a.last() == '\n',
        forall|i: int|
            0 <= i < blank.len() ==> crate::text::is_white_space(#[trigger] blank[i]) && blank[i]
                != '\n',
    ensures
        parsed_deck(a + blank + seq!['\n'] + b) == parsed_deck(a + b),
{
    let l = strip_cr(blank);
    lemma_lines_from_single(seq![], blank);
    assert(Seq::<char>::empty() + blank == blank);
    let wb = blank + seq!['\n'];
    assert(wb.last() == '\n');
    lemma_lines_from_append(seq![], wb, b);
    assert(split_lines(wb + b) == seq![l] + split_lines(b));
    let ls = split_lines(a) + seq![l] + split_lines(b);
    if a.len() == 0 {
        assert(a + blank + seq!['\n'] + b == wb + b);
        assert(a + b == b);
        assert(split_lines(a) == Seq::<Seq<char>>::empty());
    } else {
        lemma_lines_from_append(seq![], a, wb + b);
        lemma_lines_from_append(seq![], a, b);
        assert(a + blank + seq!['\n'] + b == a + (wb + b));
    }
    assert(split_lines(a + blank + seq!['\n'] + b) == ls);
    assert(split_lines(a + b) == split_lines(a) + split_lines(b));
    // The inserted line is blank once trimmed.
    let p = |c: char| crate::text::is_white_space(c);
    assert forall|i: int| 0 <= i < l.len() implies p(#[trigger] l[i]) by {
        assert(l[i] == blank[i]);
    }
    lemma_trim_start_shape(l, p);
    assert(trim_start(l).len() == 0);
    assert(trim(l).len() == 0);
    assert(ls == (split_lines(a) + split_lines(b)).insert(split_lines(a).len() as int, l));
    law_blank_lines_ignored(initial_deck(), split_lines(a) + split_lines(b), split_lines(a).len() as int, l);
}

/// `a` is a subsequence of `b`: `b` with some characters left out.
pub open spec fn is_subsequence(a: Seq<char>, b: Seq<char>) -> bool
    decreases b.len(),
{
    if b.len() == 0 {
        a.len() == 0
    } else {
        is_subsequence(a, b.drop_first()) || (a.len() > 0 && a[0] == b[0] && is_subsequence(
            a.drop_first(),
            b.drop_first(),
        ))
    }
}

proof fn lemma_subsequence_refl(a: Seq<char>)
    ensures
        is_subsequence(a, a),
    decreases a.len(),
{
    if a.len() > 0 {
        lemma_subsequence_refl(a.drop_first());
    }
}

proof fn lemma_subsequence_push(a: Seq<char>, b: Seq<char>, x: char)
    requires
        is_subsequence(a, b),
    ensures
        is_subsequence(a, b.push(x)),
    decreases b.len(),
{
    if b.len() == 0 {
        assert(b.push(x).drop_first() == b);
    } else {
        assert(b.push(x).drop_first() == b.drop_first().push(x));
        assert(b.push(x)[0] == b[0]);
        if is_subsequence(a, b.drop_first()) {
            lemma_subsequence_push(a, b.drop_first(), x);
        } else {
            lemma_subsequence_push(a.drop_first(), b.drop_first(), x);
        }
    }
}

proof fn lemma_subsequence_trans(a: Seq<char>, b: Seq<char>, c: Seq<char>)
    requires
        is_subsequence(a, b),
        is_subsequence(b, c),
    ensures
        is_subsequence(a, c),
    decreases c.len(),
{
    if c.len() > 0 {
        if is_subsequence(b, c.drop_first()) {
            lemma_subsequence_trans(a, b, c.drop_first());
        } else if is_subsequence(a, b.drop_first()) {
            lemma_subsequence_trans(a, b.drop_first(), c.drop_first());
        } else {
            lemma_subsequence_trans(a.drop_first(), b.drop_first(), c.drop_first());
        }
    }
}

proof fn lemma_subsequence_len(a: Seq<char>, b: Seq<char>)
    requires
        is_subsequence(a, b),
    ensures
        a.len() <= b.len(),
    decreases b.len(),
{
    if b.len() > 0 {
        if is_subsequence(a, b.drop_first()) {
            lemma_subsequence_len(a, b.drop_first());
        } else {
            lemma_subsequence_len(a.drop_first(), b.drop_first());
        }
    }
}

proof fn lemma_strip_markup_subsequence(s: Seq<char>)
    ensures
        is_subsequence(strip_markup(s), s),
    decreases s.len(),
{
    if s.len() > 0 {
        let r = strip_markup(s);
        if s[0] == '\\' && s.len() > 1 && is_escapable(s[1]) {
            let t = s.drop_first();
            lemma_strip_markup_subsequence(s.skip(2));
            assert(t.drop_first() == s.skip(2));
            assert(r.drop_first() == strip_markup(s.skip(2)));
            assert(is_subsequence(r, t));
        } else {
            lemma_strip_markup_subsequence(s.drop_first());
            if !is_emphasis(s[0]) {
                assert(r.drop_first() == strip_markup(s.drop_first()));
            }
        }
    }
}

proof fn lemma_trim_start_subsequence(s: Seq<char>)
    ensures
        is_subsequence(trim_start(s), s),
    decreases s.len(),
{
    if s.len() > 0 && crate::text::is_white_space(s[0]) {
        lemma_trim_start_subsequence(s.drop_first());
    } else {
        lemma_subsequence_refl(s);
    }
}

proof fn lemma_trim_end_subsequence(s: Seq<char>)
    ensures
        is_subsequence(trim_end(s), s),
    decreases s.len(),
{
    if s.len() > 0 && crate::text::is_white_space(s.last()) {
        lemma_trim_end_subsequence(s.drop_last());
        lemma_subsequence_push(trim_end(s), s.drop_last(), s.last());
        assert(s.drop_last().push(s.last()) == s);
    } else {
        lemma_subsequence_refl(s);
    }
}

/// Cleaning only leaves characters out: the cleaned text is a subsequence
/// of the input, so it is never longer.
pub proof fn law_cleaned_is_subsequence(s: Seq<char>)
    ensures
        is_subsequence(cleaned(s), s),
        cleaned(s).len() <= s.len(),
{
    let m = strip_markup(s);
    lemma_strip_markup_subsequence(s);
    lemma_trim_start_subsequence(m);
    lemma_trim_end_subsequence(trim_start(m));
    lemma_subsequence_trans(trim_start(m), m, s);
    lemma_subsequence_trans(cleaned(s), trim_start(m), s);
    lemma_subsequence_len(cleaned(s), s);
}

/// `lower` keeps the length and every character width of `line`, as the
/// lowercase form of an ASCII line does.
pub open spec fn keeps_byte_offsets(line: Seq<char>, lower: Seq<char>) -> bool {
    &&& lower.len() == line.len()
    &&& forall|i: int| 0 <= i < line.len() ==> crate::text::utf8_width(#[trigger] lower[i])
        == crate::text::utf8_width(line[i])
}

/// The ASCII lower case of an ASCII line is ASCII and keeps every byte
/// offset of the line, so the tag laws below apply to ASCII lines.
pub proof fn law_ascii_lowercase_keeps_offsets(line: Seq<char>)
    requires
        is_ascii_text(line),
    ensures
        keeps_byte_offsets(line, ascii_lower(line)),
        is_ascii_text(ascii_lower(line)),
{
    let lower = ascii_lower(line);
    assert forall|i: int| 0 <= i < line.len() implies (#[trigger] lower[i] as u32) < 128
        && crate::text::utf8_width(lower[i]) == crate::text::utf8_width(line[i]) by {
        assert((line[i] as u32) < 128);
        assert(lower[i] == crate::text::ascii_lower_char(line[i]));
    }
}

proof fn lemma_same_widths_prefix(line: Seq<char>, lower: Seq<char>, k: int)
    requires
        keeps_byte_offsets(line, lower),
        0 <= k <= line.len(),
    ensures
        byte_len(lower.take(k)) == byte_len(line.take(k)),
        char_index_at_byte(line, byte_len(line.take(k)) as int) == Some(k),
    decreases k,
{
    if k > 0 {
        lemma_same_widths_prefix(line, lower, k - 1);
        lemma_byte_len_take_step(line, k - 1);
        lemma_byte_len_take_step(lower, k - 1);
        lemma_char_index_of_prefix(line, k);
    } else {
        assert(line.take(0) == Seq::<char>::empty());
        assert(lower.take(0) == Seq::<char>::empty());
    }
}

proof fn lemma_char_index_of_prefix(s: Seq<char>, k: int)
    requires
        0 <= k <= s.len(),
    ensures
        char_index_at_byte(s, byte_len(s.take(k)) as int) == Some(k),
    decreases k,
{
    if k == 0 {
        assert(s.take(0) == Seq::<char>::empty());
    } else {
        let t = s.drop_first();
        lemma_char_index_of_prefix(t, k - 1);
        assert(s.take(k).drop_first() == t.take(k - 1));
        assert(s.take(k)[0] == s[0]);
        crate::text::lemma_byte_len_positive(s[0]);
    }
}

/// When the lowercase form keeps every byte offset (as for ASCII lines), a
/// tagged line is always sliced at the tag itself: a question line gives
/// the number from the digits before `question:` and the cleaned text
/// after it, with no panic.
pub proof fn law_question_line_at_tag(line: Seq<char>, lower: Seq<char>, next: usize)
    requires
        keeps_byte_offsets(line, lower),
    ensures
        question_scan_in(line, lower, next) == match find(lower, question_tag()) {
            None => LineScan::Absent,
            Some(k) => LineScan::Found(
                (question_number(line.take(k), next), cleaned(line.skip(k + 9))),
            ),
        },
{
    if let Some(k) = find(lower, question_tag()) {
        crate::text::lemma_find_fits(lower, question_tag());
        lemma_same_widths_prefix(line, lower, k);
        lemma_same_widths_prefix(line, lower, k + 9);
    }
}

/// As `law_question_line_at_tag`, for answer lines: the cleaned text after
/// the first `answer:`.
pub proof fn law_answer_line_at_tag(line: Seq<char>, lower: Seq<char>)
    requires
        keeps_byte_offsets(line, lower),
    ensures
        answer_scan_in(line, lower) == match find(lower, answer_tag()) {
            None => LineScan::Absent,
            Some(k) => LineScan::Found(cleaned(line.skip(k + 7))),
        },
{
    if let Some(k) = find(lower, answer_tag()) {
        crate::text::lemma_find_fits(lower, answer_tag());
        lemma_same_widths_prefix(line, lower, k + 7);
    }
}

/// As `law_question_line_at_tag`, for fact lines: the cleaned text after
/// the first `net control fact:`, or else after the first `fact:`.
pub proof fn law_fact_line_at_tag(line: Seq<char>, lower: Seq<char>)
    requires
        keeps_byte_offsets(line, lower),
    ensures
        fact_scan_in(line, lower) == match find(lower, control_fact_tag()) {
            Some(k) => LineScan::Found(cleaned(line.skip(k + 17))),
            None => match find(lower, fact_tag()) {
                None => LineScan::Absent,
                Some(k) => LineScan::Found(cleaned(line.skip(k + 5))),
            },
        },
{
    if let Some(k) = find(lower, control_fact_tag()) {
        crate::text::lemma_find_fits(lower, control_fact_tag());
        lemma_same_widths_prefix(line, lower, k + 17);
    } else if let Some(k) = find(lower, fact_tag()) {
        crate::text::lemma_find_fits(lower, fact_tag());
        lemma_same_widths_prefix(line, lower, k + 5);
    }
}

} // verus!
