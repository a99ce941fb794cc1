use vstd::prelude::*;
use vstd::string::StringExecFns;
use crate::pipeline::{opt_str, AcceptanceCriterion, Requirement, RequirementsSpec};
use crate::text::{chars_of, lower_char_exec, push_text, string_of, trim, trim_end, trim_string};

verus! {

// ---------------------------------------------------------------------------
// Character classes and small pieces
// ---------------------------------------------------------------------------

/// ASCII white space: tab, line feed, vertical tab, form feed, carriage return, space.
pub open spec fn ascii_space(c: char) -> bool {
    c == '\t' || c == '\n' || c == '\x0b' || c == '\x0c' || c == '\r' || c == ' '
}

pub open spec fn is_digit(c: char) -> bool {
    '0' <= c && c <= '9'
}

/// A character of a requirement id: upper-case letter, digit, `_` or `-`.
pub open spec fn id_char(c: char) -> bool {
    ('A' <= c && c <= 'Z') || is_digit(c) || c == '_' || c == '-'
}

/// Index of the first character at or after `i` that is not ASCII white space, or the length.
pub open spec fn skip_spaces(s: Seq<char>, i: int) -> int
    decreases s.len() - i,
{
    if i < 0 || i >= s.len() || !ascii_space(s[i]) {
        i
    } else {
        skip_spaces(s, i + 1)
    }
}

pub open spec fn skip_ids(s: Seq<char>, i: int) -> int
    decreases s.len() - i,
{
    if i < 0 || i >= s.len() || !id_char(s[i]) {
        i
    } else {
        skip_ids(s, i + 1)
    }
}

pub open spec fn skip_digits(s: Seq<char>, i: int) -> int
    decreases s.len() - i,
{
    if i < 0 || i >= s.len() || !is_digit(s[i]) {
        i
    } else {
        skip_digits(s, i + 1)
    }
}

pub open spec fn skip_char(s: Seq<char>, c: char, i: int) -> int
    decreases s.len() - i,
{
    if i < 0 || i >= s.len() || s[i] != c {
        i
    } else {
        skip_char(s, c, i + 1)
    }
}

pub open spec fn suffix(s: Seq<char>, i: int) -> Seq<char> {
    s.subrange(i, s.len() as int)
}

pub open spec fn ascii_lower(c: char) -> char {
    crate::text::lower_char(c)
}

// ---------------------------------------------------------------------------
// Line grammar
// ---------------------------------------------------------------------------

/// `- [ID] summary`: the id and the summary (trimmed), when the line is a requirement.
pub open spec fn requirement_line(t: Seq<char>) -> Option<(Seq<char>, Seq<char>)> {
    if t.len() == 0 || t[0] != '-' {
        None
    } else {
        let a = skip_spaces(t, 1);
        if a >= t.len() || t[a] != '[' {
            None
        } else {
            let e = skip_ids(t, a + 1);
            if e == a + 1 || e >= t.len() || t[e] != ']' || e + 1 >= t.len() {
                None
            } else {
                Some((t.subrange(a + 1, e), trim(suffix(t, e + 1))))
            }
        }
    }
}

/// `file: a, b` or `files: a, b` (any case): the text after the colon, when the line is a
/// file hint.
pub open spec fn file_hint_line(s: Seq<char>) -> Option<Seq<char>> {
    if s.len() < 4 || ascii_lower(s[0]) != 'f' || ascii_lower(s[1]) != 'i' || ascii_lower(s[2]) != 'l'
        || ascii_lower(s[3]) != 'e' {
        None
    } else {
        let b = if s.len() > 4 && ascii_lower(s[4]) == 's' { 5int } else { 4int };
        let c = skip_spaces(s, b);
        if c >= s.len() || s[c] != ':' || c + 1 >= s.len() {
            None
        } else {
            Some(suffix(s, c + 1))
        }
    }
}

/// The hints of a file line: its pieces, trimmed, blanks left out.
pub open spec fn hints_of(pieces: Seq<Seq<char>>) -> Seq<Seq<char>>
    decreases pieces.len(),
{
    if pieces.len() == 0 {
        Seq::empty()
    } else {
        let h = hints_of(pieces.drop_last());
        if trim(pieces.last()).len() == 0 {
            h
        } else {
            h.push(trim(pieces.last()))
        }
    }
}

/// After an optional `:` between white space, what remains of `r` (not empty).
pub open spec fn after_colon(r: Seq<char>) -> Seq<char> {
    let w = skip_spaces(r, 0);
    if w < r.len() && r[w] == ':' && w + 1 < r.len() {
        suffix(r, skip_spaces(r, w + 1))
    } else {
        suffix(r, w)
    }
}

/// An acceptance line `AC-###: text`: the optional id and the text (before trimming).
pub open spec fn acceptance_line(s: Seq<char>) -> (Option<Seq<char>>, Seq<char>) {
    let d = skip_digits(s, 3);
    if s.len() >= 3 && s[0] == 'A' && s[1] == 'C' && s[2] == '-' && d - 3 >= 3 {
        if d < s.len() {
            (Some(s.subrange(0, d)), after_colon(suffix(s, d)))
        } else if d - 3 > 3 {
            (Some(s.subrange(0, d - 1)), suffix(s, d - 1))
        } else {
            (None, after_colon(s))
        }
    } else {
        (None, after_colon(s))
    }
}

pub open spec fn eq_ignore_case(a: Seq<char>, b: Seq<char>) -> bool {
    a.len() == b.len() && forall|i: int| 0 <= i < a.len() ==> ascii_lower(#[trigger] a[i]) == ascii_lower(b[i])
}

/// The text of a heading line: without its leading `#`s, trimmed.
pub open spec fn heading_text(line: Seq<char>) -> Seq<char> {
    trim(suffix(line, skip_char(line, '#', 0)))
}

// ---------------------------------------------------------------------------
// Lines of a document
// ---------------------------------------------------------------------------

pub open spec fn strip_cr(s: Seq<char>) -> Seq<char> {
    if s.len() > 0 && s.last() == '\r' {
        s.drop_last()
    } else {
        s
    }
}

/// The pieces of `s` between occurrences of `c`, in order.
pub open spec fn split_on(s: Seq<char>, c: char) -> Seq<Seq<char>>
    decreases s.len(),
{
    if s.len() == 0 {
        seq![Seq::<char>::empty()]
    } else {
        let rest = split_on(s.drop_last(), c);
        if s.last() == c {
            rest.push(Seq::empty())
        } else {
            rest.update(rest.len() - 1, rest.last().push(s.last()))
        }
    }
}

/// The lines of `s` as `str::lines` gives them: split at line feeds, without the empty piece
/// after a final line feed, each without a final carriage return.
pub open spec fn lines_of(s: Seq<char>) -> Seq<Seq<char>> {
    if s.len() == 0 {
        Seq::empty()
    } else {
        let p = split_on(s, '\n');
        let q = if s.last() == '\n' { p.drop_last() } else { p };
        q.map_values(|l: Seq<char>| strip_cr(l))
    }
}

proof fn lemma_split_on_nonempty(s: Seq<char>, c: char)
    ensures
        split_on(s, c).len() >= 1,
    decreases s.len(),
{
    if s.len() > 0 {
        lemma_split_on_nonempty(s.drop_last(), c);
    }
}

/// The pieces of `v` between occurrences of `c`.
fn split_on_exec(v: &Vec<char>, c: char) -> (r: Vec<Vec<char>>)
    ensures
        r@.map_values(|p: Vec<char>| p@) == split_on(v@, c),
{
    let mut out: Vec<Vec<char>> = Vec::new();
    let mut cur: Vec<char> = Vec::new();
    let mut i: usize = 0;
    while i < v.len()
        invariant
            i <= v@.len(),
            out@.map_values(|p: Vec<char>| p@).push(cur@) == split_on(v@.subrange(0, i as int), c),
        decreases v@.len() - i,
    {
        let ghost before = out@.map_values(|p: Vec<char>| p@).push(cur@);
        assert(v@.subrange(0, i + 1).drop_last() =~= v@.subrange(0, i as int));
        proof {
            lemma_split_on_nonempty(v@.subrange(0, i as int), c);
        }
        if v[i] == c {
            let done = cur;
            out.push(done);
            cur = Vec::new();
            assert(out@.map_values(|p: Vec<char>| p@).push(cur@) =~= before.push(Seq::<char>::empty()));
        } else {
            cur.push(v[i]);
            assert(out@.map_values(|p: Vec<char>| p@).push(cur@) =~= before.update(before.len() - 1, before.last().push(v@[i as int])));
        }
        i += 1;
    }
    assert(v@.subrange(0, v@.len() as int) =~= v@);
    let ghost all = out@.map_values(|p: Vec<char>| p@).push(cur@);
    out.push(cur);
    assert(out@.map_values(|p: Vec<char>| p@) =~= all);
    out
}

/// The lines of `s`, as `str::lines` gives them.
pub fn split_lines(s: &str) -> (r: Vec<Vec<char>>)
    ensures
        r@.map_values(|l: Vec<char>| l@) == lines_of(s@),
{
    let v = chars_of(s);
    if v.len() == 0 {
        let r: Vec<Vec<char>> = Vec::new();
        assert(r@.map_values(|l: Vec<char>| l@) =~= Seq::<Seq<char>>::empty());
        return r;
    }
    let mut pieces = split_on_exec(&v, '\n');
    proof {
        lemma_split_on_nonempty(v@, '\n');
    }
    let ghost p = pieces@.map_values(|x: Vec<char>| x@);
    if v[v.len() - 1] == '\n' {
        pieces.pop();
        assert(pieces@.map_values(|x: Vec<char>| x@) =~= p.drop_last());
    }
    let ghost q = pieces@.map_values(|x: Vec<char>| x@);
    let mut out: Vec<Vec<char>> = Vec::new();
    let mut i: usize = 0;
    while i < pieces.len()
        invariant
            i <= pieces@.len(),
            q == pieces@.map_values(|x: Vec<char>| x@),
            out@.len() == i,
            forall|k: int| 0 <= k < i ==> (#[trigger] out@[k])@ == strip_cr(q[k]),
        decreases pieces@.len() - i,
    {
        let piece = &pieces[i];
        let mut line: Vec<char> = Vec::new();
        let n = piece.len();
        let end = if n > 0 && piece[n - 1] == '\r' { n - 1 } else { n };
        let mut k: usize = 0;
        while k < end
            invariant
                k <= end <= n,
                n == piece@.len(),
                line@ == piece@.subrange(0, k as int),
            decreases end - k,
        {
            line.push(piece[k]);
            assert(line@ =~= piece@.subrange(0, k + 1));
            k += 1;
        }
        proof {
            assert(q[i as int] == piece@);
            if n > 0 && piece@[n - 1] == '\r' {
                assert(piece@.drop_last() =~= piece@.subrange(0, end as int));
            } else {
                assert(piece@.subrange(0, n as int) =~= piece@);
            }
        }
        out.push(line);
        i += 1;
    }
    assert(out@.map_values(|l: Vec<char>| l@) =~= q.map_values(|l: Seq<char>| strip_cr(l)));
    out
}

// ---------------------------------------------------------------------------
// Classifying lines
// ---------------------------------------------------------------------------

fn ascii_space_exec(c: char) -> (r: bool)
    ensures
        r == ascii_space(c),
{
    c == '\t' || c == '\n' || c == '\x0b' || c == '\x0c' || c == '\r' || c == ' '
}

fn skip_spaces_exec(v: &Vec<char>, i: usize) -> (j: usize)
    requires
        i <= v@.len(),
    ensures
        j == skip_spaces(v@, i as int),
        i <= j <= v@.len(),
{
    let mut j = i;
    while j < v.len() && ascii_space_exec(v[j])
        invariant
            i <= j <= v@.len(),
            skip_spaces(v@, i as int) == skip_spaces(v@, j as int),
        decreases v@.len() - j,
    {
        j += 1;
    }
    j
}

fn skip_ids_exec(v: &Vec<char>, i: usize) -> (j: usize)
    requires
        i <= v@.len(),
    ensures
        j == skip_ids(v@, i as int),
        i <= j <= v@.len(),
{
    let mut j = i;
    while j < v.len() && (('A' <= v[j] && v[j] <= 'Z') || ('0' <= v[j] && v[j] <= '9') || v[j] == '_' || v[j] == '-')
        invariant
            i <= j <= v@.len(),
            skip_ids(v@, i as int) == skip_ids(v@, j as int),
        decreases v@.len() - j,
    {
        j += 1;
    }
    j
}

fn skip_digits_exec(v: &Vec<char>, i: usize) -> (j: usize)
    requires
        i <= v@.len(),
    ensures
        j == skip_digits(v@, i as int),
        i <= j <= v@.len(),
{
    let mut j = i;
    while j < v.len() && '0' <= v[j] && v[j] <= '9'
        invariant
            i <= j <= v@.len(),
            skip_digits(v@, i as int) == skip_digits(v@, j as int),
        decreases v@.len() - j,
    {
        j += 1;
    }
    j
}

fn skip_char_exec(v: &Vec<char>, c: char, i: usize) -> (j: usize)
    requires
        i <= v@.len(),
    ensures
        j == skip_char(v@, c, i as int),
        i <= j <= v@.len(),
{
    let mut j = i;
    while j < v.len() && v[j] == c
        invariant
            i <= j <= v@.len(),
            skip_char(v@, c, i as int) == skip_char(v@, c, j as int),
        decreases v@.len() - j,
    {
        j += 1;
    }
    j
}

fn trimmed_chars(v: &Vec<char>, from: usize) -> (r: Vec<char>)
    requires
        from <= v@.len(),
    ensures
        r@ == trim(suffix(v@, from as int)),
{
    let s = string_of(v, from, v.len());
    let t = trim_string(s.as_str());
    chars_of(t.as_str())
}

fn requirement_line_exec(t: &Vec<char>) -> (r: Option<(String, String)>)
    ensures
        match r {
            Some((id, summary)) => requirement_line(t@) == Some((id@, summary@)),
            None => requirement_line(t@) is None,
        },
{
    let n = t.len();
    if n == 0 || t[0] != '-' {
        return None;
    }
    let a = skip_spaces_exec(t, 1);
    if a >= n || t[a] != '[' {
        return None;
    }
    let e = skip_ids_exec(t, a + 1);
    if e == a + 1 || e >= n || t[e] != ']' || e + 1 >= n {
        return None;
    }
    let id = string_of(t, a + 1, e);
    let rest = trimmed_chars(t, e + 1);
    let summary = string_of(&rest, 0, rest.len());
    assert(rest@.subrange(0, rest@.len() as int) =~= rest@);
    Some((id, summary))
}

fn file_hint_exec(s: &Vec<char>) -> (r: Option<usize>)
    ensures
        match r {
            Some(k) => k <= s@.len() && file_hint_line(s@) == Some(suffix(s@, k as int)),
            None => file_hint_line(s@) is None,
        },
{
    let n = s.len();
    if n < 4 || lower_char_exec(s[0]) != 'f' || lower_char_exec(s[1]) != 'i' || lower_char_exec(s[2]) != 'l'
        || lower_char_exec(s[3]) != 'e' {
        return None;
    }
    let b: usize = if n > 4 && lower_char_exec(s[4]) == 's' { 5 } else { 4 };
    let c = skip_spaces_exec(s, b);
    if c >= n || s[c] != ':' || c + 1 >= n {
        return None;
    }
    Some(c + 1)
}

fn after_colon_exec(v: &Vec<char>, from: usize) -> (r: usize)
    requires
        from <= v@.len(),
    ensures
        from <= r <= v@.len(),
        suffix(v@, r as int) == after_colon(suffix(v@, from as int)),
{
    let ghost rr = suffix(v@, from as int);
    let w = skip_spaces_exec(v, from);
    proof {
        lemma_skip_spaces_shift(v@, from as int, w as int);
    }
    if w < v.len() && v[w] == ':' && w + 1 < v.len() {
        let k = skip_spaces_exec(v, w + 1);
        proof {
            lemma_skip_spaces_shift_at(v@, from as int, w + 1);
            assert(skip_spaces(rr, (w - from) + 1) == k - from);
            assert(rr[w - from] == v@[w as int]);
            assert(suffix(rr, k - from) =~= suffix(v@, k as int));
        }
        k
    } else {
        proof {
            if w - from < rr.len() {
                assert(rr[w - from] == v@[w as int]);
            }
            assert(suffix(rr, w - from) =~= suffix(v@, w as int));
        }
        w
    }
}

/// `skip_spaces` on a suffix is `skip_spaces` on the whole, shifted.
proof fn lemma_skip_spaces_shift(v: Seq<char>, from: int, j: int)
    requires
        0 <= from <= v.len(),
    ensures
        skip_spaces(suffix(v, from), 0) == skip_spaces(v, from) - from,
        forall|i: int| from <= i <= v.len() ==> #[trigger] skip_spaces(suffix(v, from), i - from) == skip_spaces(v, i) - from,
{
    lemma_skip_spaces_shift_at(v, from, from);
    assert forall|i: int| from <= i <= v.len() implies #[trigger] skip_spaces(suffix(v, from), i - from) == skip_spaces(v, i) - from by {
        lemma_skip_spaces_shift_at(v, from, i);
    }
}

proof fn lemma_skip_spaces_shift_at(v: Seq<char>, from: int, i: int)
    requires
        0 <= from <= i <= v.len(),
    ensures
        skip_spaces(suffix(v, from), i - from) == skip_spaces(v, i) - from,
    decreases v.len() - i,
{
    if i < v.len() {
        assert(suffix(v, from)[i - from] == v[i]);
        if ascii_space(v[i]) {
            lemma_skip_spaces_shift_at(v, from, i + 1);
        }
    }
}

/// The id and the text (trimmed) of an acceptance line.
fn acceptance_exec(s: &Vec<char>) -> (r: (Option<String>, Vec<char>))
    ensures
        opt_str(r.0) == acceptance_line(s@).0,
        r.1@ == trim(acceptance_line(s@).1),
{
    let n = s.len();
    let d = skip_digits_exec(s, if n >= 3 { 3 } else { n });
    let ghost dd = skip_digits(s@, 3);
    proof {
        if n < 3 {
            assert(dd == 3);
        }
    }
    if n >= 3 && s[0] == 'A' && s[1] == 'C' && s[2] == '-' && d - 3 >= 3 {
        if d < n {
            let k = after_colon_exec(s, d);
            return (Some(string_of(s, 0, d)), trimmed_chars(s, k));
        } else if d - 3 > 3 {
            assert(suffix(s@, d - 1) == suffix(s@, (d - 1) as int));
            return (Some(string_of(s, 0, d - 1)), trimmed_chars(s, d - 1));
        }
    }
    let k = after_colon_exec(s, 0);
    assert(suffix(s@, 0) =~= s@);
    (None, trimmed_chars(s, k))
}

fn eq_ignore_case_exec(a: &Vec<char>, b: &str) -> (r: bool)
    ensures
        r == eq_ignore_case(a@, b@),
{
    let w = chars_of(b);
    if a.len() != w.len() {
        return false;
    }
    let mut i: usize = 0;
    while i < a.len()
        invariant
            a@.len() == w@.len(),
            w@ == b@,
            i <= a@.len(),
            forall|k: int| 0 <= k < i ==> ascii_lower(#[trigger] a@[k]) == ascii_lower(w@[k]),
        decreases a@.len() - i,
    {
        if lower_char_exec(a[i]) != lower_char_exec(w[i]) {
            return false;
        }
        i += 1;
    }
    true
}

/// The hints of the text after a file line's colon.
fn hints_exec(v: &Vec<char>, from: usize) -> (r: Vec<String>)
    requires
        from <= v@.len(),
    ensures
        r@.map_values(|h: String| h@) == hints_of(split_on(suffix(v@, from as int), ',')),
{
    let rest_s = string_of(v, from, v.len());
    let rest = chars_of(rest_s.as_str());
    let pieces = split_on_exec(&rest, ',');
    let ghost ps = pieces@.map_values(|p: Vec<char>| p@);
    let mut out: Vec<String> = Vec::new();
    let mut i: usize = 0;
    while i < pieces.len()
        invariant
            i <= pieces@.len(),
            ps == pieces@.map_values(|p: Vec<char>| p@),
            out@.map_values(|h: String| h@) == hints_of(ps.subrange(0, i as int)),
        decreases pieces@.len() - i,
    {
        let p = string_of(&pieces[i], 0, pieces[i].len());
        assert(pieces@[i as int]@.subrange(0, pieces@[i as int]@.len() as int) =~= pieces@[i as int]@);
        let t = trim_string(p.as_str());
        assert(ps.subrange(0, i + 1).drop_last() =~= ps.subrange(0, i as int));
        let ghost before = out@;
        if t.as_str().unicode_len() > 0 {
            out.push(t);
            assert(out@.map_values(|h: String| h@) =~= before.map_values(|h: String| h@).push(out@.last()@));
        }
        i += 1;
    }
    assert(ps.subrange(0, pieces@.len() as int) =~= ps);
    out
}

// ---------------------------------------------------------------------------
// The document state
// ---------------------------------------------------------------------------

/// Why a requirements document was refused.
#[derive(Debug, Clone, PartialEq, Eq)]
pub enum SpecMarkdownError {
    MissingAcceptanceCriteria(String),
    IdWithoutPrefix(String),
    IdWithoutDigits(String),
    DuplicateId(String),
    MissingCriterionText,
    NoRequirements,
}

/// A refusal as plain values.
pub enum SpecErrorV {
    MissingAcceptanceCriteria(Seq<char>),
    IdWithoutPrefix(Seq<char>),
    IdWithoutDigits(Seq<char>),
    DuplicateId(Seq<char>),
    MissingCriterionText,
    NoRequirements,
}

pub open spec fn error_v(e: SpecMarkdownError) -> SpecErrorV {
    match e {
        SpecMarkdownError::MissingAcceptanceCriteria(id) => SpecErrorV::MissingAcceptanceCriteria(id@),
        SpecMarkdownError::IdWithoutPrefix(id) => SpecErrorV::IdWithoutPrefix(id@),
        SpecMarkdownError::IdWithoutDigits(id) => SpecErrorV::IdWithoutDigits(id@),
        SpecMarkdownError::DuplicateId(id) => SpecErrorV::DuplicateId(id@),
        SpecMarkdownError::MissingCriterionText => SpecErrorV::MissingCriterionText,
        SpecMarkdownError::NoRequirements => SpecErrorV::NoRequirements,
    }
}

impl SpecMarkdownError {
    /// The message shown for the refusal.
    pub fn message(&self) -> (r: String)
        ensures
            r@ == match error_v(*self) {
                SpecErrorV::MissingAcceptanceCriteria(id) => "Requirement "@ + id + " missing acceptance criteria"@,
                SpecErrorV::IdWithoutPrefix(id) => "Requirement id "@ + id + " must start with REQ-"@,
                SpecErrorV::IdWithoutDigits(id) => "Requirement id "@ + id + " must end in digits"@,
                SpecErrorV::DuplicateId(id) => "Duplicate requirement id "@ + id,
                SpecErrorV::MissingCriterionText => "Acceptance criterion missing text"@,
                SpecErrorV::NoRequirements => "No requirements found"@,
            },
    {
        match self {
            SpecMarkdownError::MissingAcceptanceCriteria(id) => {
                let mut r = String::from_str("Requirement ");
                push_text(&mut r, id.as_str());
                push_text(&mut r, " missing acceptance criteria");
                r
            },
            SpecMarkdownError::IdWithoutPrefix(id) => {
                let mut r = String::from_str("Requirement id ");
                push_text(&mut r, id.as_str());
                push_text(&mut r, " must start with REQ-");
                r
            },
            SpecMarkdownError::IdWithoutDigits(id) => {
                let mut r = String::from_str("Requirement id ");
                push_text(&mut r, id.as_str());
                push_text(&mut r, " must end in digits");
                r
            },
            SpecMarkdownError::DuplicateId(id) => {
                let mut r = String::from_str("Duplicate requirement id ");
                push_text(&mut r, id.as_str());
                r
            },
            SpecMarkdownError::MissingCriterionText => String::from_str("Acceptance criterion missing text"),
            SpecMarkdownError::NoRequirements => String::from_str("No requirements found"),
        }
    }
}

/// A requirement as plain values: id, summary, criteria (id and text), file hints.
pub type ReqV = (Seq<char>, Seq<char>, Seq<(Option<Seq<char>>, Seq<char>)>, Seq<Seq<char>>);

pub open spec fn criterion_v(c: AcceptanceCriterion) -> (Option<Seq<char>>, Seq<char>) {
    (opt_str(c.id), c.text@)
}

pub open spec fn req_v(r: Requirement) -> ReqV {
    (
        r.id@,
        r.summary@,
        r.acceptance_criteria@.map_values(|c: AcceptanceCriterion| criterion_v(c)),
        r.file_hints@.map_values(|h: String| h@),
    )
}

pub struct StateV {
    pub title: Seq<char>,
    pub overview: Seq<Seq<char>>,
    pub reqs: Seq<ReqV>,
    pub in_section: bool,
    pub current: Option<ReqV>,
    pub seen: Seq<Seq<char>>,
}

/// The parser's state between lines.
pub struct MarkdownState {
    pub title: String,
    pub overview: Vec<String>,
    pub requirements: Vec<Requirement>,
    pub in_section: bool,
    pub current: Option<Requirement>,
    pub seen: Vec<String>,
}

impl MarkdownState {
    pub open spec fn view(&self) -> StateV {
        StateV {
            title: self.title@,
            overview: self.overview@.map_values(|s: String| s@),
            reqs: self.requirements@.map_values(|r: Requirement| req_v(r)),
            in_section: self.in_section,
            current: match self.current {
                Some(r) => Some(req_v(r)),
                None => None,
            },
            seen: self.seen@.map_values(|s: String| s@),
        }
    }
}

pub open spec fn initial_state() -> StateV {
    StateV {
        title: Seq::empty(),
        overview: Seq::empty(),
        reqs: Seq::empty(),
        in_section: false,
        current: None,
        seen: Seq::empty(),
    }
}

/// What an id that is not `REQ-` followed by digits is refused for.
pub open spec fn id_problem(id: Seq<char>) -> Option<SpecErrorV> {
    if !(id.len() >= 4 && id.subrange(0, 4) == "REQ-"@) {
        Some(SpecErrorV::IdWithoutPrefix(id))
    } else if id.len() == 4 || exists|i: int| 4 <= i < id.len() && !is_digit(id[i]) {
        Some(SpecErrorV::IdWithoutDigits(id))
    } else {
        None
    }
}

/// The state after the requirement being read is closed: it must have a criterion.
pub open spec fn close_current(st: StateV) -> Result<StateV, SpecErrorV> {
    match st.current {
        None => Ok(st),
        Some(r) => if r.2.len() == 0 {
            Err(SpecErrorV::MissingAcceptanceCriteria(r.0))
        } else {
            Ok(StateV { reqs: st.reqs.push(r), current: None, ..st })
        },
    }
}

/// One line of a requirements document.
pub open spec fn line_step(st: StateV, raw: Seq<char>) -> Result<StateV, SpecErrorV> {
    let line = trim_end(raw);
    let hash = line.len() > 0 && line[0] == '#';
    let double = line.len() > 1 && line[0] == '#' && line[1] == '#';
    if double && eq_ignore_case(heading_text(line), "requirements"@) {
        match close_current(st) {
            Err(e) => Err(e),
            Ok(s2) => Ok(StateV { in_section: true, ..s2 }),
        }
    } else if hash && !double && st.title.len() == 0 {
        Ok(StateV { title: heading_text(line), ..st })
    } else if !st.in_section {
        if trim(line).len() > 0 {
            Ok(StateV { overview: st.overview.push(trim(line)), ..st })
        } else {
            Ok(st)
        }
    } else {
        let t = trim(line);
        match requirement_line(t) {
            Some((id, summary)) => match close_current(st) {
                Err(e) => Err(e),
                Ok(s2) => match id_problem(id) {
                    Some(e) => Err(e),
                    None => if s2.seen.contains(id) {
                        Err(SpecErrorV::DuplicateId(id))
                    } else {
                        Ok(StateV {
                            seen: s2.seen.push(id),
                            current: Some((id, summary, Seq::empty(), Seq::empty())),
                            ..s2
                        })
                    },
                },
            },
            None => match st.current {
                None => Ok(st),
                Some(cur) => if t.len() == 0 || t[0] != '-' {
                    Ok(st)
                } else {
                    let inner = trim(suffix(t, skip_char(t, '-', 0)));
                    match file_hint_line(inner) {
                        Some(files) => Ok(StateV {
                            current: Some((cur.0, cur.1, cur.2, cur.3 + hints_of(split_on(files, ',')))),
                            ..st
                        }),
                        None => if inner.len() == 0 {
                            Ok(st)
                        } else {
                            let (cid, raw_text) = acceptance_line(inner);
                            if trim(raw_text).len() == 0 {
                                Err(SpecErrorV::MissingCriterionText)
                            } else {
                                Ok(StateV {
                                    current: Some((cur.0, cur.1, cur.2.push((cid, trim(raw_text))), cur.3)),
                                    ..st
                                })
                            }
                        },
                    }
                },
            },
        }
    }
}

pub open spec fn run_lines(lines: Seq<Seq<char>>, n: int) -> Result<StateV, SpecErrorV>
    decreases n,
{
    if n <= 0 {
        Ok(initial_state())
    } else {
        match run_lines(lines, n - 1) {
            Err(e) => Err(e),
            Ok(st) => line_step(st, lines[n - 1]),
        }
    }
}

/// The parts joined with single spaces.
pub open spec fn join_spaces(parts: Seq<Seq<char>>) -> Seq<char>
    decreases parts.len(),
{
    if parts.len() == 0 {
        Seq::empty()
    } else if parts.len() == 1 {
        parts[0]
    } else {
        join_spaces(parts.drop_last()) + " "@ + parts.last()
    }
}

/// The document's title, overview and requirements, or why it was refused.
pub open spec fn parse_markdown(doc: Seq<char>) -> Result<(Seq<char>, Seq<char>, Seq<ReqV>), SpecErrorV> {
    let lines = lines_of(doc);
    match run_lines(lines, lines.len() as int) {
        Err(e) => Err(e),
        Ok(st) => match close_current(st) {
            Err(e) => Err(e),
            Ok(s2) => if s2.reqs.len() == 0 {
                Err(SpecErrorV::NoRequirements)
            } else {
                Ok((
                    if s2.title.len() == 0 { "Untitled"@ } else { s2.title },
                    if s2.overview.len() == 0 { "No overview provided"@ } else { join_spaces(s2.overview) },
                    s2.reqs,
                ))
            },
        },
    }
}

// ---------------------------------------------------------------------------
// Parsing
// ---------------------------------------------------------------------------

/// Why `id` is refused, if it is: an id is `REQ-` followed by one or more digits.
fn validate_requirement_id(id: &String) -> (r: Option<SpecMarkdownError>)
    ensures
        match r {
            Some(e) => id_problem(id@) == Some(error_v(e)),
            None => id_problem(id@) is None,
        },
{
    let v = chars_of(id.as_str());
    proof {
        reveal_strlit("REQ-");
    }
    let prefixed = v.len() >= 4 && v[0] == 'R' && v[1] == 'E' && v[2] == 'Q' && v[3] == '-';
    proof {
        if v@.len() >= 4 {
            if prefixed {
                assert(v@.subrange(0, 4) =~= "REQ-"@);
            } else if v@.subrange(0, 4) == "REQ-"@ {
                assert(v@.subrange(0, 4)[0] == v@[0]);
                assert(v@.subrange(0, 4)[1] == v@[1]);
                assert(v@.subrange(0, 4)[2] == v@[2]);
                assert(v@.subrange(0, 4)[3] == v@[3]);
            }
        }
    }
    if !prefixed {
        return Some(SpecMarkdownError::IdWithoutPrefix(id.clone()));
    }
    proof {
        reveal_strlit("REQ-");
        assert(v@.subrange(0, 4) =~= "REQ-"@);
    }
    if v.len() == 4 {
        return Some(SpecMarkdownError::IdWithoutDigits(id.clone()));
    }
    let mut i: usize = 4;
    while i < v.len()
        invariant
            4 <= i <= v@.len(),
            v@ == id@,
            v@.len() > 4,
            v@.subrange(0, 4) == "REQ-"@,
            forall|k: int| 4 <= k < i ==> is_digit(#[trigger] v@[k]),
        decreases v@.len() - i,
    {
        if !('0' <= v[i] && v[i] <= '9') {
            assert(!is_digit(id@[i as int]));
            return Some(SpecMarkdownError::IdWithoutDigits(id.clone()));
        }
        i += 1;
    }
    None
}

fn close_current_exec(st: &mut MarkdownState) -> (r: Result<(), SpecMarkdownError>)
    ensures
        match r {
            Ok(()) => close_current(old(st).view()) == Ok::<StateV, SpecErrorV>(final(st).view()),
            Err(e) => close_current(old(st).view()) == Err::<StateV, SpecErrorV>(error_v(e)),
        },
{
    let ghost before = st.view();
    match st.current.take() {
        None => {
            assert(st.view() == before);
            Ok(())
        },
        Some(r) => {
            if r.acceptance_criteria.len() == 0 {
                proof {
                    assert(req_v(r).2.len() == 0);
                }
                return Err(SpecMarkdownError::MissingAcceptanceCriteria(r.id));
            }
            let ghost rv = req_v(r);
            assert(rv.2.len() != 0);
            st.requirements.push(r);
            assert(st.view().reqs =~= before.reqs.push(rv));
            assert(st.view().overview =~= before.overview);
            assert(st.view().seen =~= before.seen);
            Ok(())
        },
    }
}

fn seen_contains(seen: &Vec<String>, id: &String) -> (r: bool)
    ensures
        r == seen@.map_values(|s: String| s@).contains(id@),
{
    let ghost sv = seen@.map_values(|s: String| s@);
    let mut k: usize = 0;
    while k < seen.len()
        invariant
            k <= seen@.len(),
            sv == seen@.map_values(|s: String| s@),
            forall|m: int| 0 <= m < k ==> sv[m] != id@,
        decreases seen@.len() - k,
    {
        if crate::text::same_text(seen[k].as_str(), id.as_str()) {
            assert(sv[k as int] == id@);
            return true;
        }
        k += 1;
    }
    false
}

/// Reads one line into the state.
fn step_line(st: &mut MarkdownState, raw: &Vec<char>) -> (r: Result<(), SpecMarkdownError>)
    ensures
        match r {
            Ok(()) => line_step(old(st).view(), raw@) == Ok::<StateV, SpecErrorV>(final(st).view()),
            Err(e) => line_step(old(st).view(), raw@) == Err::<StateV, SpecErrorV>(error_v(e)),
        },
{
    let ghost before = st.view();
    let raw_s = string_of(raw, 0, raw.len());
    assert(raw@.subrange(0, raw@.len() as int) =~= raw@);
    let line_s = trim_end_string(raw_s.as_str());
    let line = chars_of(line_s.as_str());
    let n = line.len();
    let hash = n > 0 && line[0] == '#';
    let double = n > 1 && line[0] == '#' && line[1] == '#';
    if double {
        let h = skip_char_exec(&line, '#', 0);
        let heading = trimmed_chars(&line, h);
        if eq_ignore_case_exec(&heading, "requirements") {
            match close_current_exec(st) {
                Err(e) => {
                    return Err(e);
                },
                Ok(()) => {},
            }
            st.in_section = true;
            return Ok(());
        }
    }
    if hash && !double && st.title.as_str().unicode_len() == 0 {
        let h = skip_char_exec(&line, '#', 0);
        let heading = trimmed_chars(&line, h);
        st.title = string_of(&heading, 0, heading.len());
        assert(heading@.subrange(0, heading@.len() as int) =~= heading@);
        return Ok(());
    }
    let t = trimmed_chars(&line, 0);
    assert(suffix(line@, 0) =~= line@);
    if !st.in_section {
        if t.len() > 0 {
            let ghost ov = st.overview@;
            st.overview.push(string_of(&t, 0, t.len()));
            assert(t@.subrange(0, t@.len() as int) =~= t@);
            assert(st.view().overview =~= before.overview.push(t@));
        }
        return Ok(());
    }
    match requirement_line_exec(&t) {
        Some((id, summary)) => {
            match close_current_exec(st) {
                Err(e) => {
                    return Err(e);
                },
                Ok(()) => {},
            }
            match validate_requirement_id(&id) {
                Some(e) => {
                    return Err(e);
                },
                None => {},
            }
            let ghost mid = st.view();
            if seen_contains(&st.seen, &id) {
                return Err(SpecMarkdownError::DuplicateId(id));
            }
            assert(!mid.seen.contains(id@));
            st.seen.push(id.clone());
            st.current = Some(
                Requirement {
                    id,
                    summary,
                    acceptance_criteria: Vec::new(),
                    file_hints: Vec::new(),
                },
            );
            assert(st.view().seen =~= mid.seen.push(id@));
            assert(st.view().current.unwrap().2 =~= Seq::<(Option<Seq<char>>, Seq<char>)>::empty());
            assert(st.view().current.unwrap().3 =~= Seq::<Seq<char>>::empty());
            return Ok(());
        },
        None => {},
    }
    if st.current.is_none() || t.len() == 0 || t[0] != '-' {
        return Ok(());
    }
    let d = skip_char_exec(&t, '-', 0);
    let inner = trimmed_chars(&t, d);
    match file_hint_exec(&inner) {
        Some(k) => {
            let hints = hints_exec(&inner, k);
            match st.current.take() {
                Some(mut cur) => {
                    let ghost old_cur = cur;
                    let ghost old_hints = cur.file_hints@.map_values(|h: String| h@);
                    let mut i: usize = 0;
                    while i < hints.len()
                        invariant
                            i <= hints@.len(),
                            cur.id == old_cur.id,
                            cur.summary == old_cur.summary,
                            cur.acceptance_criteria == old_cur.acceptance_criteria,
                            cur.file_hints@.map_values(|h: String| h@) == old_hints + hints@.subrange(0, i as int).map_values(|h: String| h@),
                        decreases hints@.len() - i,
                    {
                        let ghost fh = cur.file_hints@;
                        cur.file_hints.push(hints[i].clone());
                        assert(cur.file_hints@.map_values(|h: String| h@) =~= fh.map_values(|h: String| h@).push(hints@[i as int]@));
                        assert(hints@.subrange(0, i + 1).map_values(|h: String| h@) =~= hints@.subrange(0, i as int).map_values(|h: String| h@).push(hints@[i as int]@));
                        i += 1;
                    }
                    assert(hints@.subrange(0, hints@.len() as int) =~= hints@);
                    st.current = Some(cur);
                },
                None => {},
            }
            return Ok(());
        },
        None => {},
    }
    if inner.len() == 0 {
        return Ok(());
    }
    let (cid, text) = acceptance_exec(&inner);
    if text.len() == 0 {
        return Err(SpecMarkdownError::MissingCriterionText);
    }
    let criterion = AcceptanceCriterion { id: cid, text: string_of(&text, 0, text.len()) };
    assert(text@.subrange(0, text@.len() as int) =~= text@);
    match st.current.take() {
        Some(mut cur) => {
            let ghost old_c = cur.acceptance_criteria@;
            cur.acceptance_criteria.push(criterion);
            assert(cur.acceptance_criteria@.map_values(|c: AcceptanceCriterion| criterion_v(c)) =~= old_c.map_values(|c: AcceptanceCriterion| criterion_v(c)).push(criterion_v(cur.acceptance_criteria@.last())));
            st.current = Some(cur);
        },
        None => {},
    }
    Ok(())
}

/// `s` without trailing white space.
fn trim_end_string(s: &str) -> (r: String)
    ensures
        r@ == trim_end(s@),
{
    let v = chars_of(s);
    let mut j: usize = v.len();
    assert(v@.subrange(0, v@.len() as int) =~= v@);
    while j > 0 && crate::text::is_space_exec(v[j - 1])
        invariant
            j <= v@.len(),
            v@ == s@,
            trim_end(s@) == trim_end(v@.subrange(0, j as int)),
        decreases j,
    {
        assert(v@.subrange(0, j as int).drop_last() =~= v@.subrange(0, j - 1));
        j -= 1;
    }
    proof {
        let u = v@.subrange(0, j as int);
        if u.len() > 0 {
            assert(u.last() == v@[j - 1]);
        }
    }
    string_of(&v, 0, j)
}

/// Parses a requirements document: a `#` title, overview lines, then under a
/// `## Requirements` heading, requirements `- [REQ-n] summary` with their acceptance criteria
/// and file hints as nested `-` items.
pub fn parse_spec_markdown(markdown: &str) -> (r: Result<RequirementsSpec, SpecMarkdownError>)
    ensures
        match r {
            Ok(spec) => parse_markdown(markdown@) == Ok::<(Seq<char>, Seq<char>, Seq<ReqV>), SpecErrorV>(
                (spec.title@, spec.overview@, spec.requirements@.map_values(|q: Requirement| req_v(q))),
            ),
            Err(e) => parse_markdown(markdown@) == Err::<(Seq<char>, Seq<char>, Seq<ReqV>), SpecErrorV>(error_v(e)),
        },
{
    let lines = split_lines(markdown);
    let ghost ls = lines@.map_values(|l: Vec<char>| l@);
    let mut st = MarkdownState {
        title: String::new(),
        overview: Vec::new(),
        requirements: Vec::new(),
        in_section: false,
        current: None,
        seen: Vec::new(),
    };
    assert(st.view().overview =~= Seq::<Seq<char>>::empty());
    assert(st.view().reqs =~= Seq::<ReqV>::empty());
    assert(st.view().seen =~= Seq::<Seq<char>>::empty());
    assert(st.view() == initial_state());
    let mut i: usize = 0;
    while i < lines.len()
        invariant
            i <= lines@.len(),
            ls == lines@.map_values(|l: Vec<char>| l@),
            ls == lines_of(markdown@),
            run_lines(ls, i as int) == Ok::<StateV, SpecErrorV>(st.view()),
        decreases lines@.len() - i,
    {
        assert(ls[i as int] == lines@[i as int]@);
        match step_line(&mut st, &lines[i]) {
            Ok(()) => {},
            Err(e) => {
                proof {
                    lemma_run_lines_err(ls, i as int + 1, ls.len() as int);
                }
                return Err(e);
            },
        }
        i += 1;
    }
    match close_current_exec(&mut st) {
        Ok(()) => {},
        Err(e) => {
            return Err(e);
        },
    }
    if st.requirements.len() == 0 {
        return Err(SpecMarkdownError::NoRequirements);
    }
    let title = if st.title.as_str().unicode_len() == 0 {
        String::from_str("Untitled")
    } else {
        st.title
    };
    let overview = if st.overview.len() == 0 {
        String::from_str("No overview provided")
    } else {
        let mut o = String::new();
        let mut k: usize = 0;
        while k < st.overview.len()
            invariant
                k <= st.overview@.len(),
                o@ == join_spaces(st.overview@.subrange(0, k as int).map_values(|s: String| s@)),
            decreases st.overview@.len() - k,
        {
            let ghost parts = st.overview@.subrange(0, k as int).map_values(|s: String| s@);
            assert(parts.push(st.overview@[k as int]@) =~= st.overview@.subrange(0, k + 1).map_values(|s: String| s@));
            assert(parts.push(st.overview@[k as int]@).drop_last() =~= parts);
            if k > 0 {
                push_text(&mut o, " ");
            } else {
                assert(o@ =~= Seq::<char>::empty());
            }
            push_text(&mut o, st.overview[k].as_str());
            proof {
                if k == 0 {
                    assert(o@ =~= st.overview@[0]@);
                }
            }
            k += 1;
        }
        assert(st.overview@.subrange(0, st.overview@.len() as int) =~= st.overview@);
        o
    };
    Ok(RequirementsSpec { title, overview, requirements: st.requirements })
}

proof fn lemma_run_lines_err(ls: Seq<Seq<char>>, n: int, m: int)
    requires
        1 <= n <= m <= ls.len(),
        run_lines(ls, n) is Err,
    ensures
        run_lines(ls, m) == run_lines(ls, n),
    decreases m - n,
{
    if m > n {
        lemma_run_lines_err(ls, n, m - 1);
    }
}

/// The document that the requirements stage starts from.
#[derive(Debug, Clone, PartialEq, Eq)]
pub struct SpecParserSeed {
    pub markdown: String,
}

impl SpecParserSeed {
    pub fn new(markdown: &str) -> (r: Self)
        ensures
            r.markdown@ == markdown@,
    {
        SpecParserSeed { markdown: String::from_str(markdown) }
    }
}

} // verus!
