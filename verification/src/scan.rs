//! Which lines are TODO-like, and the references a TODO-like line carries.
//!
//! A line is TODO-like when it holds an upper-case `TODO` or `TEMP`, one of
//! `XXX`, `FIXME`, `TBD`, `MVP` in any case, or a lower-case `temp` or `todo`
//! after a `#` or `//` comment marker. On such a line every `TODO <ref>` (the
//! reference followed by an optional colon and then whitespace or the end of
//! the line) and every `TODO(<ref>, <ref>, ...)` is read, left to right.
use vstd::prelude::*;

use crate::text::{chars_of, is_ws, trim};
use crate::token::occurs_at;
use crate::token::{parse_token, parse_token_exec};
use crate::todo::{LintViolation, ReferenceView, TodoReference, ViolationView};

verus! {

/// Whether `c` is a word character in the sense of `\w` and `\b` of the
/// `regex` crate (Unicode `Alphabetic`, `Join_Control`, `Decimal_Number`,
/// `Mark` or `Connector_Punctuation`).
pub uninterp spec fn unicode_word_char(c: char) -> bool;

/// An ASCII word character: `[0-9A-Za-z_]`.
pub open spec fn ascii_word_char(c: char) -> bool {
    let u = c as u32;
    ||| 48 <= u <= 57
    ||| 65 <= u <= 90
    ||| 97 <= u <= 122
    ||| u == 95
}

/// `regex_syntax::is_word_character`; its contract claims that the result
/// is the value of `unicode_word_char` at `c`, and that among ASCII
/// characters exactly `[0-9A-Za-z_]` are word characters (the ASCII entries
/// of its Perl word table).
#[verifier::external_body]
fn is_word_char(c: char) -> (r: bool)
    ensures
        r == unicode_word_char(c),
        (c as u32) < 128 ==> (r <==> ascii_word_char(c)),
{
    regex_syntax::is_word_character(c)
}

/// Whether position `i` of `s` holds a word character.
pub open spec fn word_at(s: Seq<char>, i: int) -> bool {
    0 <= i < s.len() && unicode_word_char(s[i])
}

/// `\b`: a word boundary lies just before position `i`.
pub open spec fn boundary(s: Seq<char>, i: int) -> bool {
    word_at(s, i - 1) != word_at(s, i)
}

pub open spec fn lit_at(s: Seq<char>, i: int, w: Seq<char>) -> bool {
    0 <= i && i + w.len() <= s.len() && s.subrange(i, i + w.len()) == w
}

/// `\b<w>\b` at `i`.
pub open spec fn word_lit_at(s: Seq<char>, i: int, w: Seq<char>) -> bool {
    lit_at(s, i, w) && boundary(s, i) && boundary(s, i + w.len())
}

/// `c` equals the lower-case ASCII letter `l` or its upper case.
pub open spec fn ci_char(c: char, l: char) -> bool {
    c == l || (c as u32) + 32 == (l as u32)
}

/// `\b<w>\b` at `i` with the ASCII letters of `w` (lower case) matched in either case.
pub open spec fn ci_word_lit_at(s: Seq<char>, i: int, w: Seq<char>) -> bool {
    &&& 0 <= i && i + w.len() <= s.len()
    &&& forall|k: int| 0 <= k < w.len() ==> ci_char(#[trigger] s[i + k], w[k])
    &&& boundary(s, i)
    &&& boundary(s, i + w.len())
}

/// No line feed in `s[a..b]`.
pub open spec fn no_newline(s: Seq<char>, a: int, b: int) -> bool {
    forall|k: int| a <= k < b ==> #[trigger] s[k] != '\n'
}

/// A `#` or `//` comment marker ends at or before `j`, with no line feed
/// between it and `j`.
pub open spec fn marker_before(s: Seq<char>, j: int) -> bool {
    exists|m: int|
        0 <= m < s.len() && {
            ||| #[trigger] s[m] == '#' && m + 1 <= j && no_newline(s, m + 1, j)
            ||| s[m] == '/' && m + 1 < s.len() && s[m + 1] == '/' && m + 2 <= j && no_newline(
                s,
                m + 2,
                j,
            )
        }
}

/// A lower-case `temp` word, or a `todo` word not followed by `-`, at `j`.
pub open spec fn lower_keyword_at(s: Seq<char>, j: int) -> bool {
    ||| word_lit_at(s, j, "temp"@)
    ||| word_lit_at(s, j, "todo"@) && (j + 4 == s.len() || s[j + 4] != '-')
}

/// A TODO-like marker starts at `i`.
pub open spec fn trigger_at(s: Seq<char>, i: int) -> bool {
    ||| word_lit_at(s, i, "TODO"@)
    ||| ci_word_lit_at(s, i, "xxx"@)
    ||| ci_word_lit_at(s, i, "fixme"@)
    ||| ci_word_lit_at(s, i, "tbd"@)
    ||| ci_word_lit_at(s, i, "mvp"@)
    ||| word_lit_at(s, i, "TEMP"@)
    ||| lower_keyword_at(s, i) && marker_before(s, i)
}

/// Whether the line is TODO-like and so checked at all.
pub open spec fn todo_like(s: Seq<char>) -> bool {
    exists|i: int| 0 <= i < s.len() && #[trigger] trigger_at(s, i)
}

/// The first position at or after `k` whose character fails `keep`.
pub open spec fn skip_while(s: Seq<char>, k: int, keep: spec_fn(char) -> bool) -> int
    decreases s.len() - k,
{
    if 0 <= k < s.len() && keep(s[k]) {
        skip_while(s, k + 1, keep)
    } else {
        k
    }
}

pub open spec fn ws_class() -> spec_fn(char) -> bool {
    |c: char| is_ws(c)
}

/// The characters a single reference may hold: `[^\s():]`.
pub open spec fn ref_class() -> spec_fn(char) -> bool {
    |c: char| !is_ws(c) && c != '(' && c != ')' && c != ':'
}

pub open spec fn not_close_paren() -> spec_fn(char) -> bool {
    |c: char| c != ')'
}

/// The length of a leading `https://` or `http://` at `b`.
pub open spec fn schema_len(s: Seq<char>, b: int) -> int {
    if lit_at(s, b, "https://"@) {
        "https://"@.len() as int
    } else if lit_at(s, b, "http://"@) {
        "http://"@.len() as int
    } else {
        0
    }
}

/// The captured part of a match, by its bounds in the line.
pub enum Capture {
    Single { start: int, end: int },
    Multiple { start: int, end: int },
}

/// `TODO\s+<ref>:?` followed by whitespace or the end of the line, after
/// the `TODO` word that ends at `a`: the reference's bounds and where the
/// match ends.
pub open spec fn single_after(s: Seq<char>, a: int) -> Option<(int, int, int)> {
    let b = skip_while(s, a, ws_class());
    let c = b + schema_len(s, b);
    let r = skip_while(s, c, ref_class());
    if b == a || r == c {
        None
    } else if r == s.len() {
        Some((b, r, r))
    } else if is_ws(s[r]) {
        Some((b, r, skip_while(s, r, ws_class())))
    } else if s[r] == ':' && r + 1 == s.len() {
        Some((b, r, r + 1))
    } else if s[r] == ':' && is_ws(s[r + 1]) {
        Some((b, r, skip_while(s, r + 1, ws_class())))
    } else {
        None
    }
}

/// `TODO\s*(<refs>)` after the `TODO` word that ends at `a`, with at least one
/// character between the parentheses: the inner bounds and where the match ends.
pub open spec fn multiple_after(s: Seq<char>, a: int) -> Option<(int, int, int)> {
    let q = skip_while(s, a, ws_class());
    let k = skip_while(s, q + 1, not_close_paren());
    if q < s.len() && s[q] == '(' && k < s.len() && k > q + 1 {
        Some((q + 1, k, k + 1))
    } else {
        None
    }
}

/// The match of the TODO reference pattern that starts at `p`, if any, with
/// the preference of the pattern: the single form before the parenthesised one.
pub open spec fn todo_match_at(s: Seq<char>, p: int) -> Option<(Capture, int)> {
    if !word_lit_at(s, p, "TODO"@) {
        None
    } else if let Some((b, r, e)) = single_after(s, p + 4) {
        Some((Capture::Single { start: b, end: r }, e))
    } else if let Some((b, r, e)) = multiple_after(s, p + 4) {
        Some((Capture::Multiple { start: b, end: r }, e))
    } else {
        None
    }
}

} // verus!

verus! {

/// A line is TODO-like wherever it holds one of the tracked markers: the
/// word `TODO` or `TEMP` in upper case, `XXX`, `FIXME`, `TBD` or `MVP` in
/// any case, or the word `temp`, or `todo` not followed by `-`, after a
/// `#` or `//` comment marker on the same line.
pub proof fn law_markers_make_lines_todo_like(s: Seq<char>, i: int)
    ensures
        word_lit_at(s, i, "TODO"@) ==> todo_like(s),
        word_lit_at(s, i, "TEMP"@) ==> todo_like(s),
        ci_word_lit_at(s, i, "xxx"@) ==> todo_like(s),
        ci_word_lit_at(s, i, "fixme"@) ==> todo_like(s),
        ci_word_lit_at(s, i, "tbd"@) ==> todo_like(s),
        ci_word_lit_at(s, i, "mvp"@) ==> todo_like(s),
        word_lit_at(s, i, "temp"@) && marker_before(s, i) ==> todo_like(s),
        word_lit_at(s, i, "todo"@) && (i + 4 == s.len() || s[i + 4] != '-') && marker_before(s, i)
            ==> todo_like(s),
{
    reveal_strlit("TODO");
    reveal_strlit("TEMP");
    reveal_strlit("xxx");
    reveal_strlit("fixme");
    reveal_strlit("tbd");
    reveal_strlit("mvp");
    reveal_strlit("temp");
    reveal_strlit("todo");
    if word_lit_at(s, i, "TODO"@) || word_lit_at(s, i, "TEMP"@) || ci_word_lit_at(s, i, "xxx"@)
        || ci_word_lit_at(s, i, "fixme"@) || ci_word_lit_at(s, i, "tbd"@) || ci_word_lit_at(
        s,
        i,
        "mvp"@,
    ) || (word_lit_at(s, i, "temp"@) && marker_before(s, i)) || (word_lit_at(s, i, "todo"@) && (i
        + 4 == s.len() || s[i + 4] != '-') && marker_before(s, i)) {
        assert(trigger_at(s, i));
        assert(0 <= i < s.len());
    }
}

pub proof fn lemma_skip_while_bounds(s: Seq<char>, k: int, keep: spec_fn(char) -> bool)
    requires
        0 <= k <= s.len(),
    ensures
        k <= skip_while(s, k, keep) <= s.len(),
        forall|j: int| k <= j < skip_while(s, k, keep) ==> keep(#[trigger] s[j]),
        skip_while(s, k, keep) < s.len() ==> !keep(s[skip_while(s, k, keep)]),
    decreases s.len() - k,
{
    if k < s.len() && keep(s[k]) {
        lemma_skip_while_bounds(s, k + 1, keep);
    }
}

pub proof fn lemma_skip_while_is(s: Seq<char>, k: int, e: int, keep: spec_fn(char) -> bool)
    requires
        0 <= k <= e <= s.len(),
        forall|j: int| k <= j < e ==> keep(#[trigger] s[j]),
        e == s.len() || !keep(s[e]),
    ensures
        skip_while(s, k, keep) == e,
    decreases e - k,
{
    if k < e {
        lemma_skip_while_is(s, k + 1, e, keep);
    }
}

pub proof fn lemma_match_end_after(s: Seq<char>, p: int)
    requires
        0 <= p,
    ensures
        todo_match_at(s, p) matches Some((_, e)) ==> p < e <= s.len(),
{
    reveal_strlit("TODO");
    if word_lit_at(s, p, "TODO"@) {
        lemma_skip_while_bounds(s, p + 4, ws_class());
        let b = skip_while(s, p + 4, ws_class());
        if b <= s.len() && b + schema_len(s, b) <= s.len() {
            lemma_skip_while_bounds(s, b + schema_len(s, b), ref_class());
            let r = skip_while(s, b + schema_len(s, b), ref_class());
            if r < s.len() {
                lemma_skip_while_bounds(s, r, ws_class());
            }
            if r + 1 < s.len() {
                lemma_skip_while_bounds(s, r + 1, ws_class());
            }
        }
        let q = skip_while(s, p + 4, ws_class());
        if q + 1 <= s.len() {
            lemma_skip_while_bounds(s, q + 1, not_close_paren());
        }
    }
}

/// The index of the first `c` in `s`, or -1.
pub open spec fn first_index(s: Seq<char>, c: char) -> int
    decreases s.len(),
{
    if s.len() == 0 {
        -1
    } else if s[0] == c {
        0
    } else if first_index(s.drop_first(), c) < 0 {
        -1
    } else {
        first_index(s.drop_first(), c) + 1
    }
}

/// The pieces of `s` between occurrences of `c`, as `str::split` gives them.
pub open spec fn split_char(s: Seq<char>, c: char) -> Seq<Seq<char>>
    decreases s.len(),
{
    let i = first_index(s, c);
    if i < 0 || i >= s.len() {
        seq![s]
    } else {
        seq![s.take(i)] + split_char(s.skip(i + 1), c)
    }
}

/// The trimmed reference tokens of one match.
pub open spec fn capture_tokens(s: Seq<char>, c: Capture) -> Seq<Seq<char>> {
    match c {
        Capture::Single { start, end } => seq![trim(s.subrange(start, end))],
        Capture::Multiple { start, end } => split_char(s.subrange(start, end), ',').map_values(
            |t: Seq<char>| trim(t),
        ),
    }
}

/// The reference tokens of all the matches from position `p` on, left to
/// right; after a match the search resumes where the match ended.
pub open spec fn tokens_from(s: Seq<char>, p: int) -> Seq<Seq<char>>
    decreases s.len() - p,
{
    if p < 0 || p >= s.len() {
        seq![]
    } else {
        match todo_match_at(s, p) {
            Some((c, e)) => {
                proof {
                    lemma_match_end_after(s, p);
                }
                capture_tokens(s, c) + tokens_from(s, e)
            },
            None => tokens_from(s, p + 1),
        }
    }
}

/// The reference tokens of a line.
pub open spec fn line_tokens(s: Seq<char>) -> Seq<Seq<char>> {
    tokens_from(s, 0)
}

/// A token that is accepted without pointing anywhere.
pub open spec fn is_exempt(t: Seq<char>) -> bool {
    t == "performance"@
}

/// A token counts when it is exempt or denotes a reference.
pub open spec fn token_counts(t: Seq<char>) -> bool {
    is_exempt(t) || parse_token(t) is Some
}

/// The references denoted by `tokens`, in order.
pub open spec fn token_refs(
    tokens: Seq<Seq<char>>,
    line: Seq<char>,
    file: Seq<char>,
    lnum: u64,
) -> Seq<ReferenceView>
    decreases tokens.len(),
{
    if tokens.len() == 0 {
        seq![]
    } else {
        let rest = token_refs(tokens.drop_last(), line, file, lnum);
        let t = tokens.last();
        if !is_exempt(t) && parse_token(t) is Some {
            let (kind, rec) = parse_token(t)->0;
            rest.push(
                ReferenceView {
                    kind: kind,
                    source_line: trim(line),
                    file_path: file,
                    line_number: lnum,
                    original_reference: t,
                    recommended_format: rec,
                },
            )
        } else {
            rest
        }
    }
}

/// Whether the line carries at least one token that counts.
pub open spec fn line_is_valid(s: Seq<char>) -> bool {
    exists|i: int| 0 <= i < line_tokens(s).len() && token_counts(#[trigger] line_tokens(s)[i])
}

/// The references a line carries (none unless it is TODO-like).
pub open spec fn line_references(s: Seq<char>, file: Seq<char>, lnum: u64) -> Seq<ReferenceView> {
    if todo_like(s) {
        token_refs(line_tokens(s), s, file, lnum)
    } else {
        seq![]
    }
}

/// The lint violation a line raises: a TODO-like line none of whose tokens counts.
pub open spec fn line_violation(s: Seq<char>, file: Seq<char>, lnum: u64) -> Option<ViolationView> {
    if todo_like(s) && !line_is_valid(s) {
        Some(ViolationView { source_line: trim(s), file_path: file, line_number: lnum })
    } else {
        None
    }
}

} // verus!

verus! {

/// The literal words of the line grammar, spelled out once.
struct Words {
    todo: Vec<char>,
    temp_upper: Vec<char>,
    temp: Vec<char>,
    todo_lower: Vec<char>,
    xxx: Vec<char>,
    fixme: Vec<char>,
    tbd: Vec<char>,
    mvp: Vec<char>,
    https: Vec<char>,
    http: Vec<char>,
}

impl Words {
    spec fn wf(&self) -> bool {
        &&& self.todo@ == "TODO"@
        &&& self.temp_upper@ == "TEMP"@
        &&& self.temp@ == "temp"@
        &&& self.todo_lower@ == "todo"@
        &&& self.xxx@ == "xxx"@
        &&& self.fixme@ == "fixme"@
        &&& self.tbd@ == "tbd"@
        &&& self.mvp@ == "mvp"@
        &&& self.https@ == "https://"@
        &&& self.http@ == "http://"@
    }

    fn new() -> (w: Self)
        ensures
            w.wf(),
    {
        Words {
            todo: chars_of("TODO"),
            temp_upper: chars_of("TEMP"),
            temp: chars_of("temp"),
            todo_lower: chars_of("todo"),
            xxx: chars_of("xxx"),
            fixme: chars_of("fixme"),
            tbd: chars_of("tbd"),
            mvp: chars_of("mvp"),
            https: chars_of("https://"),
            http: chars_of("http://"),
        }
    }
}

fn is_word_at(v: &Vec<char>, i: usize) -> (r: bool)
    ensures
        r == word_at(v@, i as int),
{
    if i < v.len() {
        is_word_char(v[i])
    } else {
        false
    }
}

fn is_boundary(v: &Vec<char>, i: usize) -> (r: bool)
    ensures
        r == boundary(v@, i as int),
{
    let before = if i == 0 {
        false
    } else {
        is_word_at(v, i - 1)
    };
    before != is_word_at(v, i)
}

fn is_lit_at(v: &Vec<char>, i: usize, w: &Vec<char>) -> (r: bool)
    ensures
        r == lit_at(v@, i as int, w@),
{
    if i > v.len() || w.len() > v.len() - i {
        return false;
    }
    let r = occurs_at(v, i, w);
    assert(v@.skip(i as int).take(w@.len() as int) == v@.subrange(i as int, i + w@.len()));
    r
}

fn is_word_lit_at(v: &Vec<char>, i: usize, w: &Vec<char>) -> (r: bool)
    ensures
        r == word_lit_at(v@, i as int, w@),
{
    let n = v.len();
    if !is_lit_at(v, i, w) {
        return false;
    }
    assert(i + w@.len() <= n);
    is_boundary(v, i) && is_boundary(v, i + w.len())
}

fn is_ci_word_lit_at(v: &Vec<char>, i: usize, w: &Vec<char>) -> (r: bool)
    ensures
        r == ci_word_lit_at(v@, i as int, w@),
{
    if i > v.len() || w.len() > v.len() - i {
        return false;
    }
    let mut k: usize = 0;
    while k < w.len()
        invariant
            i + w@.len() <= v@.len(),
            w@.len() == w.len(),
            v@.len() == v.len(),
            0 <= k <= w@.len(),
            forall|j: int| 0 <= j < k ==> ci_char(#[trigger] v@[i + j], w@[j]),
        decreases w.len() - k,
    {
        let c = v[i + k];
        let l = w[k];
        let cu = c as u32;
        let lu = l as u32;
        if !(c == l || (lu >= 32 && cu == lu - 32)) {
            return false;
        }
        k = k + 1;
    }
    is_boundary(v, i) && is_boundary(v, i + w.len())
}

proof fn lemma_marker_step(s: Seq<char>, i: int)
    requires
        0 <= i < s.len(),
    ensures
        marker_before(s, i + 1) == ((marker_before(s, i) && s[i] != '\n') || s[i] == '#' || (i
            >= 1 && s[i - 1] == '/' && s[i] == '/')),
{
    if marker_before(s, i + 1) {
        let m = choose|m: int|
            0 <= m < s.len() && {
                ||| #[trigger] s[m] == '#' && m + 1 <= i + 1 && no_newline(s, m + 1, i + 1)
                ||| s[m] == '/' && m + 1 < s.len() && s[m + 1] == '/' && m + 2 <= i + 1
                    && no_newline(s, m + 2, i + 1)
            };
        if s[m] == '#' && m + 1 <= i + 1 && no_newline(s, m + 1, i + 1) {
            if m + 1 <= i {
                assert(s[i] != '\n');
                assert(no_newline(s, m + 1, i));
            }
        } else {
            if m + 2 <= i {
                assert(s[i] != '\n');
                assert(no_newline(s, m + 2, i));
            }
        }
    }
    if marker_before(s, i) && s[i] != '\n' {
        let m = choose|m: int|
            0 <= m < s.len() && {
                ||| #[trigger] s[m] == '#' && m + 1 <= i && no_newline(s, m + 1, i)
                ||| s[m] == '/' && m + 1 < s.len() && s[m + 1] == '/' && m + 2 <= i && no_newline(
                    s,
                    m + 2,
                    i,
                )
            };
        assert(s[m] == '#' ==> no_newline(s, m + 1, i + 1));
        assert(s[m] == '/' && m + 2 <= i && no_newline(s, m + 2, i) ==> no_newline(s, m + 2, i + 1));
    }
    if s[i] == '#' {
        assert(no_newline(s, i + 1, i + 1));
    }
    if i >= 1 && s[i - 1] == '/' && s[i] == '/' {
        assert(no_newline(s, i + 1, i + 1));
        assert(s[i - 1] == '/' && i - 1 + 1 < s.len() && s[i - 1 + 1] == '/' && i - 1 + 2 <= i + 1
            && no_newline(s, i - 1 + 2, i + 1));
    }
}

fn is_lower_keyword_at(v: &Vec<char>, j: usize, words: &Words) -> (r: bool)
    requires
        words.wf(),
    ensures
        r == lower_keyword_at(v@, j as int),
{
    proof {
        reveal_strlit("todo");
    }
    if is_word_lit_at(v, j, &words.temp) {
        return true;
    }
    let n = v.len();
    if !is_word_lit_at(v, j, &words.todo_lower) {
        return false;
    }
    assert(j + 4 <= n);
    j + 4 == n || v[j + 4] != '-'
}

/// Whether the line is TODO-like.
pub fn is_todo_like(v: &Vec<char>) -> (r: bool)
    ensures
        r == todo_like(v@),
{
    let words = Words::new();
    let mut marker = false;
    let mut i: usize = 0;
    proof {
        assert(!marker_before(v@, 0));
    }
    while i < v.len()
        invariant
            words.wf(),
            0 <= i <= v@.len(),
            marker == marker_before(v@, i as int),
            forall|k: int| 0 <= k < i ==> !#[trigger] trigger_at(v@, k),
        decreases v.len() - i,
    {
        let n = v.len();
        let hit = is_word_lit_at(v, i, &words.todo) || is_ci_word_lit_at(v, i, &words.xxx)
            || is_ci_word_lit_at(v, i, &words.fixme) || is_ci_word_lit_at(v, i, &words.tbd)
            || is_ci_word_lit_at(v, i, &words.mvp) || is_word_lit_at(v, i, &words.temp_upper) || (
        marker && is_lower_keyword_at(v, i, &words));
        if hit {
            assert(trigger_at(v@, i as int));
            return true;
        }
        proof {
            lemma_marker_step(v@, i as int);
        }
        let c = v[i];
        marker = (marker && c != '\n') || c == '#' || (i >= 1 && v[i - 1] == '/' && c == '/');
        i = i + 1;
    }
    false
}

} // verus!

verus! {

/// Whether two character vectors are equal.
pub fn same_chars(a: &Vec<char>, b: &Vec<char>) -> (r: bool)
    ensures
        r == (a@ == b@),
{
    if a.len() != b.len() {
        return false;
    }
    let mut i: usize = 0;
    while i < a.len()
        invariant
            a@.len() == b@.len(),
            0 <= i <= a@.len(),
            forall|j: int| 0 <= j < i ==> a@[j] == b@[j],
        decreases a.len() - i,
    {
        if a[i] != b[i] {
            return false;
        }
        i = i + 1;
    }
    assert(a@ =~= b@);
    true
}

fn skip_ws_from(v: &Vec<char>, k: usize) -> (r: usize)
    requires
        k <= v@.len(),
    ensures
        r as int == skip_while(v@, k as int, ws_class()),
        k <= r <= v@.len(),
{
    let mut i = k;
    while i < v.len() && crate::text::is_whitespace(v[i])
        invariant
            k <= i <= v@.len(),
            forall|j: int| k <= j < i ==> #[trigger] ws_class()(v@[j]),
        decreases v.len() - i,
    {
        i = i + 1;
    }
    proof {
        lemma_skip_while_is(v@, k as int, i as int, ws_class());
    }
    i
}

fn skip_ref_from(v: &Vec<char>, k: usize) -> (r: usize)
    requires
        k <= v@.len(),
    ensures
        r as int == skip_while(v@, k as int, ref_class()),
        k <= r <= v@.len(),
{
    let mut i = k;
    while i < v.len() && !crate::text::is_whitespace(v[i]) && v[i] != '(' && v[i] != ')' && v[i]
        != ':'
        invariant
            k <= i <= v@.len(),
            forall|j: int| k <= j < i ==> #[trigger] ref_class()(v@[j]),
        decreases v.len() - i,
    {
        i = i + 1;
    }
    proof {
        lemma_skip_while_is(v@, k as int, i as int, ref_class());
    }
    i
}

fn find_close_from(v: &Vec<char>, k: usize) -> (r: usize)
    requires
        k <= v@.len(),
    ensures
        r as int == skip_while(v@, k as int, not_close_paren()),
        k <= r <= v@.len(),
{
    let mut i = k;
    while i < v.len() && v[i] != ')'
        invariant
            k <= i <= v@.len(),
            forall|j: int| k <= j < i ==> #[trigger] not_close_paren()(v@[j]),
        decreases v.len() - i,
    {
        i = i + 1;
    }
    proof {
        lemma_skip_while_is(v@, k as int, i as int, not_close_paren());
    }
    i
}

fn schema_len_at(v: &Vec<char>, b: usize, words: &Words) -> (r: usize)
    requires
        words.wf(),
        b <= v@.len(),
    ensures
        r as int == schema_len(v@, b as int),
        b + r <= v@.len(),
{
    proof {
        reveal_strlit("https://");
        reveal_strlit("http://");
    }
    if is_lit_at(v, b, &words.https) {
        8
    } else if is_lit_at(v, b, &words.http) {
        7
    } else {
        0
    }
}

/// A match of the reference pattern: whether it is the single form, the
/// bounds of its capture, and where it ends.
struct MatchAt {
    single: bool,
    start: usize,
    end: usize,
    next: usize,
}

spec fn match_view(m: MatchAt) -> (Capture, int) {
    if m.single {
        (Capture::Single { start: m.start as int, end: m.end as int }, m.next as int)
    } else {
        (Capture::Multiple { start: m.start as int, end: m.end as int }, m.next as int)
    }
}

fn match_at(v: &Vec<char>, p: usize, words: &Words) -> (r: Option<MatchAt>)
    requires
        words.wf(),
        p <= v@.len(),
    ensures
        match r {
            Some(m) => todo_match_at(v@, p as int) == Some(match_view(m)) && m.start <= m.end
                <= v@.len() && p < m.next <= v@.len(),
            None => todo_match_at(v@, p as int) is None,
        },
{
    proof {
        reveal_strlit("TODO");
        lemma_match_end_after(v@, p as int);
    }
    let n = v.len();
    if !is_word_lit_at(v, p, &words.todo) {
        return None;
    }
    let a = p + 4;
    let b = skip_ws_from(v, a);
    let c = b + schema_len_at(v, b, words);
    let r = skip_ref_from(v, c);
    let single: Option<usize> = if b == a || r == c {
        None
    } else if r == n {
        Some(r)
    } else if crate::text::is_whitespace(v[r]) {
        Some(skip_ws_from(v, r))
    } else if v[r] == ':' && r + 1 == n {
        Some(r + 1)
    } else if v[r] == ':' && crate::text::is_whitespace(v[r + 1]) {
        Some(skip_ws_from(v, r + 1))
    } else {
        None
    };
    if let Some(e) = single {
        return Some(MatchAt { single: true, start: b, end: r, next: e });
    }
    let q = skip_ws_from(v, a);
    if q < n && v[q] == '(' {
        let k = find_close_from(v, q + 1);
        if k < n && k > q + 1 {
            return Some(MatchAt { single: false, start: q + 1, end: k, next: k + 1 });
        }
    }
    None
}

pub open spec fn seqs_of(v: Seq<Vec<char>>) -> Seq<Seq<char>> {
    v.map_values(|t: Vec<char>| t@)
}

proof fn lemma_first_index_is(s: Seq<char>, c: char, k: int)
    requires
        -1 <= k < s.len(),
        k >= 0 ==> s[k] == c,
        forall|j: int| 0 <= j < (if k < 0 { s.len() as int } else { k }) ==> s[j] != c,
    ensures
        first_index(s, c) == k,
    decreases s.len(),
{
    if s.len() > 0 && s[0] != c {
        if k < 0 {
            lemma_first_index_is(s.drop_first(), c, -1);
        } else {
            lemma_first_index_is(s.drop_first(), c, k - 1);
        }
    }
}

/// The trimmed pieces of `v[lo..hi]` between commas.
fn split_commas_trimmed(v: &Vec<char>, lo: usize, hi: usize, out: &mut Vec<Vec<char>>)
    requires
        lo <= hi <= v@.len(),
    ensures
        seqs_of(final(out)@) == seqs_of(old(out)@) + split_char(
            v@.subrange(lo as int, hi as int),
            ',',
        ).map_values(|t: Seq<char>| trim(t)),
{
    let ghost whole = v@.subrange(lo as int, hi as int);
    let ghost start_out = seqs_of(out@);
    let mut start = lo;
    let mut i = lo;
    let ghost mut done: Seq<Seq<char>> = seq![];
    assert(v@.subrange(lo as int, hi as int).skip(0) == whole);
    while i < hi
        invariant
            lo <= start <= i <= hi <= v@.len(),
            whole == v@.subrange(lo as int, hi as int),
            forall|j: int| start <= j < i ==> v@[j] != ',',
            split_char(whole, ',') == done + split_char(v@.subrange(start as int, hi as int), ','),
            seqs_of(out@) == start_out + done.map_values(|t: Seq<char>| trim(t)),
        decreases hi - i,
    {
        if v[i] == ',' {
            let ghost piece = v@.subrange(start as int, hi as int);
            proof {
                lemma_first_index_is(piece, ',', i - start);
                assert(piece.take(i - start) == v@.subrange(start as int, i as int));
                assert(piece.skip(i - start + 1) == v@.subrange(i + 1, hi as int));
            }
            let (a, b) = crate::text::trim_bounds(v, start, i);
            let ghost prev_out = out@;
            let ghost prev_done = done;
            let t = crate::token::slice_chars(v, a, b);
            out.push(t);
            proof {
                done = done.push(v@.subrange(start as int, i as int));
                assert(seqs_of(out@) =~= seqs_of(prev_out).push(t@));
                assert(done.map_values(|t: Seq<char>| trim(t)) =~= prev_done.map_values(
                    |t: Seq<char>| trim(t),
                ).push(trim(v@.subrange(start as int, i as int))));
                assert(seqs_of(out@) =~= start_out + done.map_values(|t: Seq<char>| trim(t)));
                assert(split_char(whole, ',') =~= done + split_char(
                    v@.subrange(i + 1, hi as int),
                    ',',
                ));
            }
            start = i + 1;
        }
        i = i + 1;
    }
    let ghost piece = v@.subrange(start as int, hi as int);
    proof {
        lemma_first_index_is(piece, ',', -1);
    }
    let (a, b) = crate::text::trim_bounds(v, start, hi);
    let ghost prev_out = out@;
    let ghost prev_done = done;
    let t = crate::token::slice_chars(v, a, b);
    out.push(t);
    proof {
        done = done.push(piece);
        assert(seqs_of(out@) =~= seqs_of(prev_out).push(t@));
        assert(done.map_values(|t: Seq<char>| trim(t)) =~= prev_done.map_values(
            |t: Seq<char>| trim(t),
        ).push(trim(piece)));
        assert(seqs_of(out@) =~= start_out + done.map_values(|t: Seq<char>| trim(t)));
        assert(split_char(whole, ',') =~= done);
        assert(split_char(whole, ',').map_values(|t: Seq<char>| trim(t)) =~= done.map_values(
            |t: Seq<char>| trim(t),
        ));
    }
}

} // verus!

verus! {

/// The reference tokens of a line, left to right.
pub fn line_tokens_of(v: &Vec<char>) -> (r: Vec<Vec<char>>)
    ensures
        seqs_of(r@) == line_tokens(v@),
{
    let words = Words::new();
    let mut out: Vec<Vec<char>> = Vec::new();
    let mut p: usize = 0;
    assert(seqs_of(out@) =~= Seq::<Seq<char>>::empty());
    while p < v.len()
        invariant
            words.wf(),
            p <= v@.len(),
            line_tokens(v@) == seqs_of(out@) + tokens_from(v@, p as int),
        decreases v.len() - p,
    {
        match match_at(v, p, &words) {
            Some(m) => {
                let ghost before = seqs_of(out@);
                if m.single {
                    let (a, b) = crate::text::trim_bounds(v, m.start, m.end);
                    let t = crate::token::slice_chars(v, a, b);
                    let ghost prev = out@;
                    out.push(t);
                    assert(seqs_of(out@) =~= seqs_of(prev).push(t@));
                    assert(seqs_of(out@) =~= before + capture_tokens(v@, match_view(m).0));
                } else {
                    split_commas_trimmed(v, m.start, m.end, &mut out);
                }
                assert(line_tokens(v@) =~= seqs_of(out@) + tokens_from(v@, m.next as int));
                p = m.next;
            },
            None => {
                p = p + 1;
            },
        }
    }
    assert(line_tokens(v@) =~= seqs_of(out@));
    out
}

/// What one TODO-like line yields: the references it carries and, when
/// none of its tokens counts, the lint violation it raises.
pub struct LineScan {
    pub references: Vec<TodoReference>,
    pub violation: Option<LintViolation>,
}

pub open spec fn ref_views(v: Seq<TodoReference>) -> Seq<ReferenceView> {
    v.map_values(|r: TodoReference| r@)
}

pub open spec fn opt_violation_view(o: Option<LintViolation>) -> Option<ViolationView> {
    match o {
        Some(v) => Some(v@),
        None => None,
    }
}

/// Reads one line of a source file (as delivered, line terminator included).
pub fn scan_line(line: &str, file_path: &str, line_number: u64) -> (r: LineScan)
    ensures
        ref_views(r.references@) == line_references(line@, file_path@, line_number),
        opt_violation_view(r.violation) == line_violation(line@, file_path@, line_number),
{
    let v = chars_of(line);
    let mut references: Vec<TodoReference> = Vec::new();
    if !is_todo_like(&v) {
        assert(ref_views(references@) =~= Seq::<ReferenceView>::empty());
        return LineScan { references, violation: None };
    }
    let tokens = line_tokens_of(&v);
    let ghost ts = seqs_of(tokens@);
    let exempt = chars_of("performance");
    let mut counted = false;
    let mut i: usize = 0;
    assert(ref_views(references@) =~= token_refs(ts.take(0), line@, file_path@, line_number));
    while i < tokens.len()
        invariant
            ts == seqs_of(tokens@),
            ts == line_tokens(line@),
            exempt@ == "performance"@,
            0 <= i <= tokens@.len(),
            ref_views(references@) == token_refs(ts.take(i as int), line@, file_path@, line_number),
            counted == exists|k: int| 0 <= k < i && token_counts(#[trigger] ts[k]),
        decreases tokens.len() - i,
    {
        let t = &tokens[i];
        assert(t@ == ts[i as int]);
        assert(ts.take(i + 1).drop_last() == ts.take(i as int));
        assert(ts.take(i + 1).last() == ts[i as int]);
        if same_chars(t, &exempt) {
            counted = true;
        } else {
            match parse_token_exec(t) {
                Some((kind, rec)) => {
                    let original = crate::text::string_of(t, 0, t.len());
                    assert(t@.subrange(0, t@.len() as int) == t@);
                    let reference = TodoReference::new(
                        kind,
                        line,
                        file_path,
                        line_number,
                        original.as_str(),
                        rec,
                    );
                    let ghost prev = references@;
                    references.push(reference);
                    assert(ref_views(references@) =~= ref_views(prev).push(reference@));
                    counted = true;
                },
                None => {},
            }
        }
        i = i + 1;
    }
    assert(ts.take(ts.len() as int) == ts);
    let violation = if counted {
        None
    } else {
        let (a, b) = crate::text::trim_bounds(&v, 0, v.len());
        assert(v@.subrange(0, v@.len() as int) == v@);
        Some(
            LintViolation {
                source_line: crate::text::string_of(&v, a, b),
                file_path: crate::text::string_from(file_path),
                line_number,
            },
        )
    };
    LineScan { references, violation }
}

} // verus!

verus! {

/// The position of the first `c` in `v`.
pub fn first_index_of(v: &Vec<char>, c: char) -> (r: Option<usize>)
    ensures
        match r {
            Some(i) => i as int == first_index(v@, c) && i < v.len(),
            None => first_index(v@, c) == -1,
        },
{
    let mut i: usize = 0;
    while i < v.len() && v[i] != c
        invariant
            0 <= i <= v@.len(),
            forall|j: int| 0 <= j < i ==> v@[j] != c,
        decreases v.len() - i,
    {
        i = i + 1;
    }
    if i == v.len() {
        proof {
            lemma_first_index_is(v@, c, -1);
        }
        None
    } else {
        proof {
            lemma_first_index_is(v@, c, i as int);
        }
        Some(i)
    }
}

} // verus!
