use vstd::prelude::*;
use vstd::string::StringExecFns;
use crate::pipeline::opt_str;
use crate::text::{
    chars_of, contains, contains_chars, is_alnum, is_alnum_exec, is_space, is_space_exec, lower,
    lower_char, lower_char_exec, push_text, string_of, trim, trim_start, trim_string,
};

verus! {

// ---------------------------------------------------------------------------
// Tokens and slugs
// ---------------------------------------------------------------------------

/// Index just past the run of ASCII letters and digits that starts at `i`.
pub open spec fn run_end(s: Seq<char>, i: int) -> int
    decreases s.len() - i,
{
    if i < 0 || i >= s.len() || !is_alnum(s[i]) {
        i
    } else {
        run_end(s, i + 1)
    }
}

/// A token starts at `i`: a letter or digit not preceded by one.
pub open spec fn run_start(s: Seq<char>, i: int) -> bool {
    0 <= i < s.len() && is_alnum(s[i]) && (i == 0 || !is_alnum(s[i - 1]))
}

/// The lower-cased token that starts at `i`.
pub open spec fn token_at(s: Seq<char>, i: int) -> Seq<char> {
    lower(s.subrange(i, run_end(s, i)))
}

/// `t` is one of the tokens of `s`.
pub open spec fn has_token(s: Seq<char>, t: Seq<char>) -> bool {
    exists|i: int| run_start(s, i) && token_at(s, i) == t
}

/// `a` has at least one token, and each of them is a token of `b`.
pub open spec fn all_tokens_in(a: Seq<char>, b: Seq<char>) -> bool {
    &&& exists|i: int| run_start(a, i)
    &&& forall|i: int| run_start(a, i) ==> has_token(b, token_at(a, i))
}

/// The ASCII letters and digits of `s`, lower-cased.
pub open spec fn slug(s: Seq<char>) -> Seq<char>
    decreases s.len(),
{
    if s.len() == 0 {
        Seq::empty()
    } else {
        slug(s.drop_last()) + if is_alnum(s.last()) {
            seq![lower_char(s.last())]
        } else {
            Seq::empty()
        }
    }
}

proof fn lemma_run_end_bounds(s: Seq<char>, i: int)
    requires
        0 <= i <= s.len(),
    ensures
        i <= run_end(s, i) <= s.len(),
        forall|k: int| i <= k < run_end(s, i) ==> is_alnum(#[trigger] s[k]),
    decreases s.len() - i,
{
    if i < s.len() && is_alnum(s[i]) {
        lemma_run_end_bounds(s, i + 1);
    }
}

fn run_end_exec(v: &Vec<char>, i: usize) -> (e: usize)
    requires
        i <= v@.len(),
    ensures
        e == run_end(v@, i as int),
        i <= e <= v@.len(),
{
    let mut k = i;
    while k < v.len() && is_alnum_exec(v[k])
        invariant
            i <= k <= v@.len(),
            run_end(v@, i as int) == run_end(v@, k as int),
        decreases v@.len() - k,
    {
        k += 1;
    }
    k
}

fn run_start_exec(v: &Vec<char>, i: usize) -> (r: bool)
    requires
        i < v@.len(),
    ensures
        r == run_start(v@, i as int),
{
    is_alnum_exec(v[i]) && (i == 0 || !is_alnum_exec(v[i - 1]))
}

/// Whether `v[from..to]`, lower-cased, equals `t`.
fn lower_range_eq(v: &Vec<char>, from: usize, to: usize, t: &Vec<char>) -> (r: bool)
    requires
        from <= to <= v@.len(),
    ensures
        r == (lower(v@.subrange(from as int, to as int)) == t@),
{
    let ghost w = lower(v@.subrange(from as int, to as int));
    if to - from != t.len() {
        return false;
    }
    let mut k: usize = 0;
    while k < t.len()
        invariant
            to - from == t@.len(),
            from <= to <= v@.len(),
            k <= t@.len(),
            w == lower(v@.subrange(from as int, to as int)),
            forall|m: int| 0 <= m < k ==> w[m] == t@[m],
        decreases t@.len() - k,
    {
        if lower_char_exec(v[from + k]) != t[k] {
            assert(w[k as int] != t@[k as int]);
            return false;
        }
        k += 1;
    }
    assert(w =~= t@);
    true
}

fn lower_range(v: &Vec<char>, from: usize, to: usize) -> (r: Vec<char>)
    requires
        from <= to <= v@.len(),
    ensures
        r@ == lower(v@.subrange(from as int, to as int)),
{
    let mut r: Vec<char> = Vec::new();
    let mut k: usize = from;
    while k < to
        invariant
            from <= k <= to <= v@.len(),
            r@ == lower(v@.subrange(from as int, k as int)),
        decreases to - k,
    {
        r.push(lower_char_exec(v[k]));
        assert(r@ =~= lower(v@.subrange(from as int, k + 1)));
        k += 1;
    }
    r
}

fn has_token_exec(s: &Vec<char>, t: &Vec<char>) -> (r: bool)
    ensures
        r == has_token(s@, t@),
{
    let mut i: usize = 0;
    while i < s.len()
        invariant
            i <= s@.len(),
            forall|k: int| 0 <= k < i ==> !(run_start(s@, k) && token_at(s@, k) == t@),
        decreases s@.len() - i,
    {
        if run_start_exec(s, i) {
            let e = run_end_exec(s, i);
            if lower_range_eq(s, i, e, t) {
                return true;
            }
        }
        i += 1;
    }
    false
}

fn all_tokens_in_exec(a: &Vec<char>, b: &Vec<char>) -> (r: bool)
    ensures
        r == all_tokens_in(a@, b@),
{
    let mut any = false;
    let mut i: usize = 0;
    while i < a.len()
        invariant
            i <= a@.len(),
            any == exists|k: int| 0 <= k < i && run_start(a@, k),
            forall|k: int| 0 <= k < i && run_start(a@, k) ==> has_token(b@, token_at(a@, k)),
        decreases a@.len() - i,
    {
        if run_start_exec(a, i) {
            let e = run_end_exec(a, i);
            let tok = lower_range(a, i, e);
            if !has_token_exec(b, &tok) {
                return false;
            }
            any = true;
        }
        i += 1;
    }
    proof {
        if any {
            let k = choose|k: int| 0 <= k < i && run_start(a@, k);
            assert(run_start(a@, k));
        }
    }
    any
}

/// The ASCII letters and digits of `s`, lower-cased.
pub fn slugify(s: &str) -> (r: Vec<char>)
    ensures
        r@ == slug(s@),
{
    let v = chars_of(s);
    let mut r: Vec<char> = Vec::new();
    let mut i: usize = 0;
    while i < v.len()
        invariant
            v@ == s@,
            i <= v@.len(),
            r@ == slug(v@.subrange(0, i as int)),
        decreases v@.len() - i,
    {
        assert(v@.subrange(0, i + 1).drop_last() =~= v@.subrange(0, i as int));
        if is_alnum_exec(v[i]) {
            r.push(lower_char_exec(v[i]));
        }
        assert(r@ =~= slug(v@.subrange(0, i + 1)));
        i += 1;
    }
    assert(v@.subrange(0, v@.len() as int) =~= v@);
    r
}

fn vec_eq(a: &Vec<char>, b: &Vec<char>) -> (r: bool)
    ensures
        r == (a@ == b@),
{
    if a.len() != b.len() {
        return false;
    }
    let mut i: usize = 0;
    while i < a.len()
        invariant
            a@.len() == b@.len(),
            i <= a@.len(),
            forall|k: int| 0 <= k < i ==> a@[k] == b@[k],
        decreases a@.len() - i,
    {
        if a[i] != b[i] {
            return false;
        }
        i += 1;
    }
    assert(a@ =~= b@);
    true
}

// ---------------------------------------------------------------------------
// Request and result types
// ---------------------------------------------------------------------------

/// A subagent that routing may choose: its name and its keywords.
#[derive(Debug, Clone)]
pub struct RouteCandidate {
    pub name: String,
    pub keywords: Vec<String>,
}

/// One routing request.
#[derive(Debug, Clone)]
pub struct RouteIntent {
    pub text: String,
    pub explicit_agent: Option<String>,
    pub auto_route: bool,
    pub candidates: Vec<RouteCandidate>,
}

/// The outcome of routing: the chosen agent, if any, and why.
#[derive(Debug, Clone, PartialEq, Eq)]
pub struct SubagentRoute {
    pub agent_name: Option<String>,
    pub reason: Option<String>,
}

/// A route as plain values: the chosen agent's name, and the reason.
pub type RouteView = (Option<Seq<char>>, Seq<char>);

impl SubagentRoute {
    pub open spec fn view_of(self) -> Option<RouteView> {
        match self.reason {
            Some(r) => Some(
                (
                    match self.agent_name {
                        Some(n) => Some(n@),
                        None => None,
                    },
                    r@,
                ),
            ),
            None => None,
        }
    }

    fn none_with_reason(reason: String) -> (r: Self)
        ensures
            r.view_of() == Some((None::<Seq<char>>, reason@)),
    {
        SubagentRoute { agent_name: None, reason: Some(reason) }
    }

    fn matched(agent_name: &String, reason: String) -> (r: Self)
        ensures
            r.view_of() == Some((Some(agent_name@), reason@)),
    {
        SubagentRoute { agent_name: Some(agent_name.clone()), reason: Some(reason) }
    }
}

/// Chooses which subagent handles a request; it holds no state.
#[derive(Debug, Default)]
pub struct SubagentRouter;

// ---------------------------------------------------------------------------
// Explicit selection
// ---------------------------------------------------------------------------

/// How a request names an agent explicitly.
pub enum ExplicitRequest {
    /// No explicit selection.
    NoRequest,
    /// A selection with no name in it.
    MissingFromCommand,
    /// A named selection; `slash` tells a `/use` command from a direct one.
    Named { raw: String, slash: bool },
}

pub open spec fn starts_with(s: Seq<char>, p: Seq<char>) -> bool {
    p.len() <= s.len() && s.subrange(0, p.len() as int) == p
}

pub open spec fn strip_leading(s: Seq<char>, c: char) -> Seq<char>
    decreases s.len(),
{
    if s.len() > 0 && s[0] == c {
        strip_leading(s.drop_first(), c)
    } else {
        s
    }
}

pub open spec fn strip_trailing(s: Seq<char>, c: char) -> Seq<char>
    decreases s.len(),
{
    if s.len() > 0 && s.last() == c {
        strip_trailing(s.drop_last(), c)
    } else {
        s
    }
}

/// Index of the first white space at or after `i`, or the length.
pub open spec fn word_end(s: Seq<char>, i: int) -> int
    decreases s.len() - i,
{
    if i < 0 || i >= s.len() || is_space(s[i]) {
        i
    } else {
        word_end(s, i + 1)
    }
}

/// The first white-space separated word of `s` (empty when there is none).
pub open spec fn first_word(s: Seq<char>) -> Seq<char> {
    let u = trim_start(s);
    u.subrange(0, word_end(u, 0))
}

/// The index of the first `"` in `s`, if any.
pub open spec fn first_quote(s: Seq<char>, e: int) -> bool {
    0 <= e < s.len() && s[e] == '"' && forall|k: int| 0 <= k < e ==> s[k] != '"'
}

/// What a `/use` command in `text` asks for, as `(kind, name)`: kind 0 is no command,
/// 1 a command without a name, 2 a command naming `name`.
pub open spec fn slash_request(text: Seq<char>) -> (int, Seq<char>) {
    let t = trim_start(text);
    if !starts_with(t, "/use"@) {
        (0, Seq::empty())
    } else {
        let arg = trim_start(t.subrange(4, t.len() as int));
        if arg.len() == 0 {
            (1, Seq::empty())
        } else if arg[0] == '"' && exists|e: int| first_quote(arg.drop_first(), e) {
            let e = choose|e: int| first_quote(arg.drop_first(), e);
            let content = trim(arg.drop_first().subrange(0, e));
            if content.len() == 0 {
                (1, Seq::empty())
            } else {
                (2, content)
            }
        } else {
            let name = first_word(strip_trailing(strip_leading(arg, '"'), '"'));
            if name.len() == 0 {
                (1, Seq::empty())
            } else {
                (2, name)
            }
        }
    }
}

/// What the request asks for explicitly, as `(kind, name, slash)`.
pub open spec fn explicit_request(explicit: Option<Seq<char>>, text: Seq<char>) -> (
    int,
    Seq<char>,
    bool,
) {
    match explicit {
        Some(a) => if trim(a).len() == 0 {
            (1, Seq::empty(), false)
        } else {
            (2, trim(a), false)
        },
        None => {
            let (k, n) = slash_request(text);
            (k, n, true)
        },
    }
}

proof fn lemma_trim_start_suffix(s: Seq<char>)
    ensures
        exists|i: int| 0 <= i <= s.len() && trim_start(s) == s.subrange(i, s.len() as int) && (
        i == s.len() || !is_space(s[i])) && forall|k: int| 0 <= k < i ==> is_space(#[trigger] s[k]),
    decreases s.len(),
{
    if s.len() > 0 && is_space(s[0]) {
        lemma_trim_start_suffix(s.drop_first());
        let i = choose|i: int|
            0 <= i <= s.drop_first().len() && trim_start(s.drop_first()) == s.drop_first().subrange(
                i,
                s.drop_first().len() as int,
            ) && (i == s.drop_first().len() || !is_space(s.drop_first()[i])) && forall|k: int|
                0 <= k < i ==> is_space(#[trigger] s.drop_first()[k]);
        assert(s.drop_first().subrange(i, s.drop_first().len() as int) =~= s.subrange(
            i + 1,
            s.len() as int,
        ));
        assert forall|k: int| 0 <= k < i + 1 implies is_space(#[trigger] s[k]) by {
            if k > 0 {
                assert(s[k] == s.drop_first()[k - 1]);
            }
        }
    } else {
        assert(s.subrange(0, s.len() as int) =~= s);
    }
}

/// `v[i..]` without leading white space, as an index into `v`.
fn skip_space(v: &Vec<char>, i: usize) -> (j: usize)
    requires
        i <= v@.len(),
    ensures
        i <= j <= v@.len(),
        trim_start(v@.subrange(i as int, v@.len() as int)) == v@.subrange(j as int, v@.len() as int),
{
    let mut j = i;
    while j < v.len() && is_space_exec(v[j])
        invariant
            i <= j <= v@.len(),
            trim_start(v@.subrange(i as int, v@.len() as int)) == trim_start(
                v@.subrange(j as int, v@.len() as int),
            ),
        decreases v@.len() - j,
    {
        proof {
            let u = v@.subrange(j as int, v@.len() as int);
            assert(u.drop_first() =~= v@.subrange(j + 1, v@.len() as int));
        }
        j += 1;
    }
    proof {
        let u = v@.subrange(j as int, v@.len() as int);
        if u.len() > 0 {
            assert(u[0] == v@[j as int]);
        }
    }
    j
}

/// Whether `v[start..]` begins with `/use`.
fn has_use_prefix(v: &Vec<char>, start: usize) -> (r: bool)
    requires
        start <= v@.len(),
    ensures
        r == starts_with(v@.subrange(start as int, v@.len() as int), "/use"@),
        r ==> start + 4 <= v@.len(),
{
    let ghost t = v@.subrange(start as int, v@.len() as int);
    proof {
        reveal_strlit("/use");
    }
    if v.len() - start < 4 {
        return false;
    }
    let r = v[start] == '/' && v[start + 1] == 'u' && v[start + 2] == 's' && v[start + 3] == 'e';
    proof {
        assert(t[0] == v@[start as int] && t[1] == v@[start + 1] && t[2] == v@[start + 2] && t[3]
            == v@[start + 3]);
        if r {
            assert(t.subrange(0, 4) =~= "/use"@);
        } else if starts_with(t, "/use"@) {
            assert(t.subrange(0, 4)[0] == t[0]);
            assert(t.subrange(0, 4)[1] == t[1]);
            assert(t.subrange(0, 4)[2] == t[2]);
            assert(t.subrange(0, 4)[3] == t[3]);
        }
    }
    r
}

/// The first word of `v[a..]` once the quotes around it are stripped.
fn unquoted_first_word(v: &Vec<char>, a: usize) -> (r: String)
    requires
        a <= v@.len(),
    ensures
        r@ == first_word(strip_trailing(strip_leading(v@.subrange(a as int, v@.len() as int), '"'), '"')),
{
    let n = v.len();
    let ghost arg = v@.subrange(a as int, n as int);
    let mut lo = a;
    while lo < n && v[lo] == '"'
        invariant
            a <= lo <= n,
            n == v@.len(),
            strip_leading(arg, '"') == strip_leading(v@.subrange(lo as int, n as int), '"'),
        decreases n - lo,
    {
        assert(v@.subrange(lo as int, n as int).drop_first() =~= v@.subrange(lo + 1, n as int));
        lo += 1;
    }
    proof {
        let u = v@.subrange(lo as int, n as int);
        if u.len() > 0 {
            assert(u[0] == v@[lo as int]);
        }
    }
    let mut hi = n;
    while hi > lo && v[hi - 1] == '"'
        invariant
            lo <= hi <= n,
            n == v@.len(),
            strip_trailing(strip_leading(arg, '"'), '"') == strip_trailing(
                v@.subrange(lo as int, hi as int),
                '"',
            ),
        decreases hi,
    {
        assert(v@.subrange(lo as int, hi as int).drop_last() =~= v@.subrange(lo as int, hi - 1));
        hi -= 1;
    }
    proof {
        let u = v@.subrange(lo as int, hi as int);
        if u.len() > 0 {
            assert(u.last() == v@[hi - 1]);
        }
    }
    let w = string_of(v, lo, hi);
    let wv = chars_of(w.as_str());
    let ws = skip_space(&wv, 0);
    assert(wv@.subrange(0, wv@.len() as int) =~= wv@);
    let mut we = ws;
    while we < wv.len() && !is_space_exec(wv[we])
        invariant
            ws <= we <= wv@.len(),
            word_end(wv@.subrange(ws as int, wv@.len() as int), 0) == word_end(
                wv@.subrange(ws as int, wv@.len() as int),
                we - ws,
            ),
        decreases wv@.len() - we,
    {
        we += 1;
    }
    let ghost u = wv@.subrange(ws as int, wv@.len() as int);
    assert(u.subrange(0, we - ws) =~= wv@.subrange(ws as int, we as int));
    string_of(&wv, ws, we)
}

fn parse_slash_use_command(text: &str) -> (r: ExplicitRequest)
    ensures
        explicit_view(r) == {
            let (k, n) = slash_request(text@);
            (k, n, true)
        },
{
    let v = chars_of(text);
    let n = v.len();
    let start = skip_space(&v, 0);
    let ghost t = trim_start(text@);
    assert(v@.subrange(0, n as int) =~= v@);
    assert(t == v@.subrange(start as int, n as int));
    if !has_use_prefix(&v, start) {
        return ExplicitRequest::NoRequest;
    }
    assert(t.subrange(4, t.len() as int) =~= v@.subrange(start + 4, n as int));
    let a = skip_space(&v, start + 4);
    let ghost arg = trim_start(t.subrange(4, t.len() as int));
    assert(arg == v@.subrange(a as int, n as int));
    if a == n {
        return ExplicitRequest::MissingFromCommand;
    }
    if v[a] == '"' {
        // look for the closing quote
        let mut e = a + 1;
        while e < n && v[e] != '"'
            invariant
                a + 1 <= e <= n,
                n == v@.len(),
                forall|k: int| a + 1 <= k < e ==> v@[k] != '"',
            decreases n - e,
        {
            e += 1;
        }
        let ghost rest = arg.drop_first();
        assert(rest =~= v@.subrange(a + 1, n as int));
        if e < n {
            assert(first_quote(rest, e - a - 1));
            proof {
                assert forall|x: int| first_quote(rest, x) implies x == e - a - 1 by {
                    if x < e - a - 1 {
                        assert(rest[x] == v@[a + 1 + x]);
                    }
                    if x > e - a - 1 {
                        assert(rest[e - a - 1] == '"');
                    }
                }
            }
            let inner = string_of(&v, a + 1, e);
            assert(rest.subrange(0, e - a - 1) =~= v@.subrange(a + 1, e as int));
            let content = trim_string(inner.as_str());
            if content.unicode_len() == 0 {
                return ExplicitRequest::MissingFromCommand;
            }
            return ExplicitRequest::Named { raw: content, slash: true };
        }
        proof {
            assert forall|x: int| !first_quote(rest, x) by {
                if 0 <= x < rest.len() {
                    assert(rest[x] == v@[a + 1 + x]);
                }
            }
        }
    }
    // strip the quotes around the argument, then take its first word
    let name = unquoted_first_word(&v, a);
    if name.unicode_len() == 0 {
        return ExplicitRequest::MissingFromCommand;
    }
    ExplicitRequest::Named { raw: name, slash: true }
}

pub open spec fn explicit_view(r: ExplicitRequest) -> (int, Seq<char>, bool) {
    match r {
        ExplicitRequest::NoRequest => (0, Seq::empty(), true),
        ExplicitRequest::MissingFromCommand => (1, Seq::empty(), true),
        ExplicitRequest::Named { raw, slash } => (2, raw@, slash),
    }
}

/// The explicit request of an intent, normalised: a direct one never comes from `/use`.
pub open spec fn explicit_matches(r: ExplicitRequest, explicit: Option<Seq<char>>, text: Seq<char>) -> bool {
    let (k, n, s) = explicit_request(explicit, text);
    let (rk, rn, rs) = explicit_view(r);
    rk == k && rn == n && (k == 2 ==> rs == s)
}

fn detect_explicit(intent: &RouteIntent) -> (r: ExplicitRequest)
    ensures
        explicit_matches(r, opt_str(intent.explicit_agent), intent.text@),
{
    match &intent.explicit_agent {
        Some(agent) => {
            let trimmed = trim_string(agent.as_str());
            if trimmed.unicode_len() == 0 {
                ExplicitRequest::MissingFromCommand
            } else {
                ExplicitRequest::Named { raw: trimmed, slash: false }
            }
        },
        None => parse_slash_use_command(intent.text.as_str()),
    }
}

/// Candidate `c` answers to the name `requested`, by its name or one of its keywords.
pub open spec fn answers_to(c: RouteCandidate, requested: Seq<char>) -> bool {
    slug(c.name@) == slug(requested) || exists|k: int|
        0 <= k < c.keywords@.len() && slug(#[trigger] c.keywords@[k]@) == slug(requested)
}

/// `i` is the first candidate that answers to `requested`.
pub open spec fn first_answering(cands: Seq<RouteCandidate>, requested: Seq<char>, i: int) -> bool {
    &&& 0 <= i < cands.len()
    &&& answers_to(cands[i], requested)
    &&& forall|j: int| 0 <= j < i ==> !answers_to(#[trigger] cands[j], requested)
}

fn answers_to_exec(c: &RouteCandidate, wanted: &Vec<char>, requested: Ghost<Seq<char>>) -> (r: bool)
    requires
        wanted@ == slug(requested@),
    ensures
        r == answers_to(*c, requested@),
{
    let s = slugify(c.name.as_str());
    if vec_eq(&s, wanted) {
        return true;
    }
    let mut k: usize = 0;
    while k < c.keywords.len()
        invariant
            k <= c.keywords@.len(),
            wanted@ == slug(requested@),
            slug(c.name@) != slug(requested@),
            forall|m: int| 0 <= m < k ==> slug(#[trigger] c.keywords@[m]@) != slug(requested@),
        decreases c.keywords@.len() - k,
    {
        let ks = slugify(c.keywords[k].as_str());
        if vec_eq(&ks, wanted) {
            return true;
        }
        k += 1;
    }
    false
}

fn find_candidate(cands: &Vec<RouteCandidate>, requested: &str) -> (r: Option<usize>)
    ensures
        match r {
            Some(i) => first_answering(cands@, requested@, i as int),
            None => forall|j: int| 0 <= j < cands@.len() ==> !answers_to(#[trigger] cands@[j], requested@),
        },
{
    let wanted = slugify(requested);
    let mut i: usize = 0;
    while i < cands.len()
        invariant
            i <= cands@.len(),
            wanted@ == slug(requested@),
            forall|j: int| 0 <= j < i ==> !answers_to(#[trigger] cands@[j], requested@),
        decreases cands@.len() - i,
    {
        if answers_to_exec(&cands[i], &wanted, Ghost(requested@)) {
            return Some(i);
        }
        i += 1;
    }
    None
}

/// The route for an explicit request of `requested`.
pub open spec fn explicit_route(cands: Seq<RouteCandidate>, requested: Seq<char>, slash: bool) -> RouteView {
    if exists|i: int| first_answering(cands, requested, i) {
        let i = choose|i: int| first_answering(cands, requested, i);
        (
            Some(cands[i].name@),
            if slash {
                "requested via `/use "@ + requested + "`"@
            } else {
                "selected explicitly ('"@ + requested + "')"@
            },
        )
    } else {
        (None, "Unknown subagent '"@ + requested + "'."@)
    }
}

fn resolve_explicit(requested: &String, slash: bool, cands: &Vec<RouteCandidate>) -> (r: SubagentRoute)
    ensures
        r.view_of() == Some(explicit_route(cands@, requested@, slash)),
{
    match find_candidate(cands, requested.as_str()) {
        Some(i) => {
            proof {
                assert forall|x: int| first_answering(cands@, requested@, x) implies x == i by {
                    if x < i {
                        assert(!answers_to(cands@[x], requested@));
                    }
                    if x > i {
                        assert(!answers_to(cands@[i as int], requested@));
                    }
                }
            }
            let mut reason: String;
            if slash {
                reason = String::from_str("requested via `/use ");
                push_text(&mut reason, requested.as_str());
                push_text(&mut reason, "`");
            } else {
                reason = String::from_str("selected explicitly ('");
                push_text(&mut reason, requested.as_str());
                push_text(&mut reason, "')");
            }
            SubagentRoute::matched(&cands[i].name, reason)
        },
        None => {
            let mut reason = String::from_str("Unknown subagent '");
            push_text(&mut reason, requested.as_str());
            push_text(&mut reason, "'.");
            SubagentRoute::none_with_reason(reason)
        },
    }
}

// ---------------------------------------------------------------------------
// Scoring
// ---------------------------------------------------------------------------

/// Points for the candidate's name: 3 when all its tokens are in the text, else 2 when the
/// text holds it, else 0.
pub open spec fn name_score(name: Seq<char>, text: Seq<char>) -> nat {
    if all_tokens_in(name, text) {
        3
    } else if contains(lower(text), lower(name)) {
        2
    } else {
        0
    }
}

/// Keyword `j` earns a point: it is not blank, it is the first of its kind, and the text
/// holds its tokens or the keyword itself.
pub open spec fn keyword_counts(kws: Seq<String>, j: int, text: Seq<char>) -> bool {
    let t = trim(kws[j]@);
    &&& t.len() > 0
    &&& forall|k: int| 0 <= k < j ==> lower(trim(#[trigger] kws[k]@)) != lower(t)
    &&& (all_tokens_in(t, text) || contains(lower(text), lower(t)))
}

pub open spec fn keyword_score(kws: Seq<String>, n: int, text: Seq<char>) -> nat
    decreases n,
{
    if n <= 0 {
        0
    } else {
        keyword_score(kws, n - 1, text) + if keyword_counts(kws, n - 1, text) {
            1nat
        } else {
            0nat
        }
    }
}

pub open spec fn score(c: RouteCandidate, text: Seq<char>) -> nat {
    name_score(c.name@, text) + keyword_score(c.keywords@, c.keywords@.len() as int, text)
}

/// The signals behind a candidate's score, as they appear in the reason.
pub open spec fn keyword_reasons(kws: Seq<String>, n: int, text: Seq<char>) -> Seq<Seq<char>>
    decreases n,
{
    if n <= 0 {
        Seq::empty()
    } else {
        keyword_reasons(kws, n - 1, text) + if keyword_counts(kws, n - 1, text) {
            seq!["keyword '"@ + trim(kws[n - 1]@) + "'"@]
        } else {
            Seq::empty()
        }
    }
}

pub open spec fn reasons(c: RouteCandidate, text: Seq<char>) -> Seq<Seq<char>> {
    (if name_score(c.name@, text) > 0 {
        seq!["agent name '"@ + c.name@ + "'"@]
    } else {
        Seq::empty()
    }) + keyword_reasons(c.keywords@, c.keywords@.len() as int, text)
}

/// The parts joined with `", "` between them.
pub open spec fn join(parts: Seq<Seq<char>>) -> Seq<char>
    decreases parts.len(),
{
    if parts.len() == 0 {
        Seq::empty()
    } else if parts.len() == 1 {
        parts[0]
    } else {
        join(parts.drop_last()) + ", "@ + parts.last()
    }
}

proof fn lemma_keyword_score_bound(kws: Seq<String>, n: int, text: Seq<char>)
    ensures
        keyword_score(kws, n, text) <= if n < 0 { 0 } else { n },
        keyword_reasons(kws, n, text).len() == keyword_score(kws, n, text),
    decreases n,
{
    if n > 0 {
        lemma_keyword_score_bound(kws, n - 1, text);
    }
}

/// Appends `part` to a `", "`-joined list that holds `count` parts so far.
pub(crate) fn push_part(out: &mut String, part: &String, count: usize, parts: Ghost<Seq<Seq<char>>>)
    requires
        old(out)@ == join(parts@),
        parts@.len() == count,
    ensures
        final(out)@ == join(parts@.push(part@)),
{
    assert(parts@.push(part@).drop_last() =~= parts@);
    if count > 0 {
        push_text(out, ", ");
    } else {
        assert(out@ =~= Seq::<char>::empty());
    }
    push_text(out, part.as_str());
    proof {
        if count == 0 {
            assert(out@ =~= part@);
        }
    }
}

/// Whether a keyword before `j`, trimmed and lower-cased, equals `normalized`.
fn earlier_same(kws: &Vec<String>, j: usize, normalized: &Vec<char>) -> (r: bool)
    requires
        j <= kws@.len(),
    ensures
        r == exists|k: int| 0 <= k < j && lower(trim(#[trigger] kws@[k]@)) == normalized@,
{
    let mut k: usize = 0;
    while k < j
        invariant
            k <= j <= kws@.len(),
            forall|m: int| 0 <= m < k ==> lower(trim(#[trigger] kws@[m]@)) != normalized@,
        decreases j - k,
    {
        let t = trim_string(kws[k].as_str());
        let tv = chars_of(t.as_str());
        let lowered = lower_range(&tv, 0, tv.len());
        assert(tv@.subrange(0, tv@.len() as int) =~= tv@);
        if vec_eq(&lowered, normalized) {
            return true;
        }
        k += 1;
    }
    false
}

/// Whether keyword `j` earns a point, and the keyword trimmed.
fn keyword_counts_exec(kws: &Vec<String>, j: usize, text: &Vec<char>, text_lower: &Vec<char>) -> (r: (bool, String))
    requires
        j < kws@.len(),
        text_lower@ == lower(text@),
    ensures
        r.0 == keyword_counts(kws@, j as int, text@),
        r.1@ == trim(kws@[j as int]@),
{
    let trimmed = trim_string(kws[j].as_str());
    let tv = chars_of(trimmed.as_str());
    let normalized = lower_range(&tv, 0, tv.len());
    assert(tv@.subrange(0, tv@.len() as int) =~= tv@);
    if tv.len() == 0 {
        return (false, trimmed);
    }
    if earlier_same(kws, j, &normalized) {
        return (false, trimmed);
    }
    let counts = all_tokens_in_exec(&tv, text) || contains_chars(text_lower, &normalized);
    (counts, trimmed)
}

fn score_candidate(c: &RouteCandidate, text: &Vec<char>, text_lower: &Vec<char>) -> (r: (
    usize,
    Vec<String>,
))
    requires
        text_lower@ == lower(text@),
        c.keywords@.len() + 3 < usize::MAX,
    ensures
        r.0 == score(*c, text@),
        r.1@.map_values(|s: String| s@) == reasons(*c, text@),
{
    let mut total: usize = 0;
    let mut why: Vec<String> = Vec::new();
    let name = chars_of(c.name.as_str());
    let lower_name = lower_range(&name, 0, name.len());
    assert(name@.subrange(0, name@.len() as int) =~= name@);
    if all_tokens_in_exec(&name, text) {
        total = 3;
    } else if contains_chars(text_lower, &lower_name) {
        total = 2;
    }
    if total > 0 {
        let mut r = String::from_str("agent name '");
        push_text(&mut r, c.name.as_str());
        push_text(&mut r, "'");
        why.push(r);
        assert(why@.map_values(|s: String| s@) =~= seq!["agent name '"@ + c.name@ + "'"@]);
    } else {
        assert(why@.map_values(|s: String| s@) =~= Seq::<Seq<char>>::empty());
    }
    let ghost head = why@.map_values(|s: String| s@);
    let mut j: usize = 0;
    while j < c.keywords.len()
        invariant
            j <= c.keywords@.len(),
            c.keywords@.len() + 3 < usize::MAX,
            text_lower@ == lower(text@),
            total == name_score(c.name@, text@) + keyword_score(c.keywords@, j as int, text@),
            why@.map_values(|s: String| s@) == head + keyword_reasons(c.keywords@, j as int, text@),
        decreases c.keywords@.len() - j,
    {
        proof {
            lemma_keyword_score_bound(c.keywords@, j as int, text@);
        }
        let (counts, trimmed) = keyword_counts_exec(&c.keywords, j, text, text_lower);
        let ghost before = why@;
        if counts {
            let mut r = String::from_str("keyword '");
            push_text(&mut r, trimmed.as_str());
            push_text(&mut r, "'");
            why.push(r);
            total += 1;
            assert(why@.map_values(|s: String| s@) =~= before.map_values(|s: String| s@).push(why@.last()@));
        }
        assert(why@.map_values(|s: String| s@) =~= head + keyword_reasons(c.keywords@, j + 1, text@));
        j += 1;
    }
    (total, why)
}

// ---------------------------------------------------------------------------
// Routing
// ---------------------------------------------------------------------------

/// The highest score among the first `n` candidates.
pub open spec fn best_score(cands: Seq<RouteCandidate>, n: int, text: Seq<char>) -> nat
    decreases n,
{
    if n <= 0 {
        0
    } else {
        let b = best_score(cands, n - 1, text);
        let s = score(cands[n - 1], text);
        if s > b { s } else { b }
    }
}

/// Indices among the first `n` candidates that score `best`, in order.
pub open spec fn top_indices(cands: Seq<RouteCandidate>, n: int, text: Seq<char>, best: nat) -> Seq<int>
    decreases n,
{
    if n <= 0 {
        Seq::empty()
    } else {
        top_indices(cands, n - 1, text, best) + if score(cands[n - 1], text) == best {
            seq![n - 1]
        } else {
            Seq::empty()
        }
    }
}

/// The route that keyword scoring gives.
pub open spec fn auto_route_spec(cands: Seq<RouteCandidate>, text: Seq<char>) -> RouteView {
    let best = best_score(cands, cands.len() as int, text);
    let top = top_indices(cands, cands.len() as int, text, best);
    if best == 0 {
        (None, "No confident keyword match."@)
    } else if top.len() > 1 {
        (None, "Multiple agents matched: "@ + join(top.map_values(|i: int| cands[i].name@)))
    } else {
        (Some(cands[top[0]].name@), "matched "@ + join(reasons(cands[top[0]], text)))
    }
}

/// The route for a request, in the order of the rules: no candidates, an explicit selection,
/// auto-routing switched off, then keyword scoring.
pub open spec fn route_spec(intent: RouteIntent) -> RouteView {
    let (k, n, slash) = explicit_request(opt_str(intent.explicit_agent), intent.text@);
    if intent.candidates@.len() == 0 {
        (None, "No registered subagents."@)
    } else if k == 1 {
        (None, "Provide an agent name after `/use`."@)
    } else if k == 2 {
        explicit_route(intent.candidates@, n, slash)
    } else if !intent.auto_route {
        (None, "Auto-routing disabled."@)
    } else {
        auto_route_spec(intent.candidates@, intent.text@)
    }
}

proof fn lemma_top_in_range(cands: Seq<RouteCandidate>, n: int, text: Seq<char>, best: nat)
    requires
        0 <= n <= cands.len(),
    ensures
        forall|m: int|
            0 <= m < top_indices(cands, n, text, best).len() ==> 0 <= #[trigger] top_indices(
                cands,
                n,
                text,
                best,
            )[m] < n && score(cands[top_indices(cands, n, text, best)[m]], text) == best,
    decreases n,
{
    if n > 0 {
        lemma_top_in_range(cands, n - 1, text, best);
        let prev = top_indices(cands, n - 1, text, best);
        let cur = top_indices(cands, n, text, best);
        assert forall|m: int| 0 <= m < cur.len() implies 0 <= #[trigger] cur[m] < n && score(
            cands[cur[m]],
            text,
        ) == best by {
            if m < prev.len() {
                assert(cur[m] == prev[m]);
            }
        }
    }
}

proof fn lemma_best_is_max(cands: Seq<RouteCandidate>, n: int, text: Seq<char>)
    requires
        0 <= n <= cands.len(),
    ensures
        forall|i: int| 0 <= i < n ==> score(#[trigger] cands[i], text) <= best_score(cands, n, text),
        n > 0 && best_score(cands, n, text) > 0 ==> exists|i: int|
            0 <= i < n && score(#[trigger] cands[i], text) == best_score(cands, n, text),
    decreases n,
{
    if n > 0 {
        lemma_best_is_max(cands, n - 1, text);
    }
}

fn auto_route(intent: &RouteIntent) -> (r: SubagentRoute)
    requires
        forall|i: int| 0 <= i < intent.candidates@.len() ==> (#[trigger] intent.candidates@[i]).keywords@.len() + 3 < usize::MAX,
    ensures
        r.view_of() == Some(auto_route_spec(intent.candidates@, intent.text@)),
{
    let cands = &intent.candidates;
    let ghost text = intent.text@;
    let tv = chars_of(intent.text.as_str());
    let text_lower = lower_range(&tv, 0, tv.len());
    assert(tv@.subrange(0, tv@.len() as int) =~= tv@);
    let mut scores: Vec<usize> = Vec::new();
    let mut all_reasons: Vec<Vec<String>> = Vec::new();
    let mut best: usize = 0;
    let mut i: usize = 0;
    while i < cands.len()
        invariant
            i <= cands@.len(),
            tv@ == text,
            text_lower@ == lower(text),
            forall|k: int| 0 <= k < cands@.len() ==> (#[trigger] cands@[k]).keywords@.len() + 3 < usize::MAX,
            scores@.len() == i,
            all_reasons@.len() == i,
            forall|k: int| 0 <= k < i ==> #[trigger] scores@[k] == score(cands@[k], text),
            forall|k: int| 0 <= k < i ==> (#[trigger] all_reasons@[k])@.map_values(|s: String| s@) == reasons(cands@[k], text),
            best == best_score(cands@, i as int, text),
        decreases cands@.len() - i,
    {
        let (s, why) = score_candidate(&cands[i], &tv, &text_lower);
        if s > best {
            best = s;
        }
        scores.push(s);
        all_reasons.push(why);
        i += 1;
    }
    if best == 0 {
        return SubagentRoute::none_with_reason(String::from_str("No confident keyword match."));
    }
    let ghost n = cands@.len() as int;
    let mut top: Vec<usize> = Vec::new();
    let mut i: usize = 0;
    while i < cands.len()
        invariant
            i <= cands@.len(),
            n == cands@.len(),
            scores@.len() == n,
            forall|k: int| 0 <= k < n ==> #[trigger] scores@[k] == score(cands@[k], text),
            top@.map_values(|x: usize| x as int) == top_indices(cands@, i as int, text, best as nat),
        decreases cands@.len() - i,
    {
        let ghost before = top@;
        if scores[i] == best {
            top.push(i);
            assert(top@.map_values(|x: usize| x as int) =~= before.map_values(|x: usize| x as int).push(i as int));
        }
        assert(top@.map_values(|x: usize| x as int) =~= top_indices(cands@, i + 1, text, best as nat));
        i += 1;
    }
    proof {
        lemma_top_in_range(cands@, n, text, best as nat);
        lemma_best_is_max(cands@, n, text);
        let w = choose|w: int| 0 <= w < n && score(#[trigger] cands@[w], text) == best_score(cands@, n, text);
        lemma_top_contains(cands@, n, text, best as nat, w);
    }
    let ghost tops = top_indices(cands@, n, text, best as nat);
    assert(top@.len() == tops.len());
    if top.len() > 1 {
        let mut names = String::from_str("Multiple agents matched: ");
        let ghost prefix = "Multiple agents matched: "@;
        let mut listed = String::new();
        let mut m: usize = 0;
        while m < top.len()
            invariant
                m <= top@.len(),
                n == cands@.len(),
                top@.map_values(|x: usize| x as int) == tops,
                forall|q: int| 0 <= q < tops.len() ==> 0 <= #[trigger] tops[q] < n,
                listed@ == join(tops.subrange(0, m as int).map_values(|i: int| cands@[i].name@)),
            decreases top@.len() - m,
        {
            assert(tops[m as int] == top@[m as int] as int);
            let idx = top[m];
            let ghost parts = tops.subrange(0, m as int).map_values(|i: int| cands@[i].name@);
            push_part(&mut listed, &cands[idx].name, m, Ghost(parts));
            assert(parts.push(cands@[idx as int].name@) =~= tops.subrange(0, m + 1).map_values(|i: int| cands@[i].name@));
            m += 1;
        }
        assert(tops.subrange(0, top@.len() as int) =~= tops);
        push_text(&mut names, listed.as_str());
        return SubagentRoute::none_with_reason(names);
    }
    let idx = top[0];
    assert(tops[0] == idx as int);
    let why = &all_reasons[idx];
    let mut reason = String::from_str("matched ");
    let mut listed = String::new();
    let ghost all = reasons(cands@[idx as int], text);
    let mut m: usize = 0;
    while m < why.len()
        invariant
            m <= why@.len(),
            why@.map_values(|s: String| s@) == all,
            listed@ == join(all.subrange(0, m as int)),
        decreases why@.len() - m,
    {
        let ghost parts = all.subrange(0, m as int);
        assert(why@[m as int]@ == all[m as int]);
        push_part(&mut listed, &why[m], m, Ghost(parts));
        assert(parts.push(why@[m as int]@) =~= all.subrange(0, m + 1));
        m += 1;
    }
    assert(all.subrange(0, why@.len() as int) =~= all);
    push_text(&mut reason, listed.as_str());
    SubagentRoute::matched(&cands[idx].name, reason)
}

proof fn lemma_top_contains(cands: Seq<RouteCandidate>, n: int, text: Seq<char>, best: nat, w: int)
    requires
        0 <= w < n <= cands.len(),
        score(cands[w], text) == best,
    ensures
        top_indices(cands, n, text, best).len() >= 1,
    decreases n,
{
    if w < n - 1 {
        lemma_top_contains(cands, n - 1, text, best, w);
    }
}

impl SubagentRouter {
    pub fn new() -> (r: Self) {
        SubagentRouter
    }

    /// Routes one request; see [`route_spec`] for the rules.
    pub fn route(&self, intent: &RouteIntent) -> (r: SubagentRoute)
        requires
            forall|i: int| 0 <= i < intent.candidates@.len() ==> (#[trigger] intent.candidates@[i]).keywords@.len() + 3 < usize::MAX,
        ensures
            r.view_of() == Some(route_spec(*intent)),
    {
        if intent.candidates.len() == 0 {
            return SubagentRoute::none_with_reason(String::from_str("No registered subagents."));
        }
        match detect_explicit(intent) {
            ExplicitRequest::MissingFromCommand => {
                return SubagentRoute::none_with_reason(
                    String::from_str("Provide an agent name after `/use`."),
                );
            },
            ExplicitRequest::Named { raw, slash } => {
                return resolve_explicit(&raw, slash, &intent.candidates);
            },
            ExplicitRequest::NoRequest => {},
        }
        if !intent.auto_route {
            return SubagentRoute::none_with_reason(String::from_str("Auto-routing disabled."));
        }
        auto_route(intent)
    }
}

} // verus!
