use vstd::prelude::*;
use vstd::string::StringExecFns;
use crate::pipeline::{copy_opt, opt_str};
use crate::spec::{
    AgentSource, ModelBinding, SubagentBuilder, SubagentSpec, SubagentValidationError,
};
use crate::agent::{clean_list, cleaned};
use crate::text::{chars_of, contains, occurs_at, same_text, string_of, trim, trim_string};

verus! {

/// Why a definition document could not be read.
#[derive(Debug, Clone, PartialEq, Eq)]
pub enum ParserError {
    MissingFrontmatter,
    InvalidFrontmatter(String),
    Validation(SubagentValidationError),
}

/// A definition as parsed, with any warnings about it.
#[derive(Debug)]
pub struct ParsedAgent {
    pub spec: SubagentSpec,
    pub warnings: Vec<String>,
}

/// The `model_config` block of a front matter, as written. Parameter values are kept as text.
#[derive(Debug, Clone)]
pub struct FrontmatterModelConfig {
    pub provider: Option<String>,
    pub model: Option<String>,
    pub endpoint: Option<String>,
    pub parameters: Vec<(String, String)>,
}

/// The front matter of a definition, as written.
#[derive(Debug, Clone)]
pub struct Frontmatter {
    pub name: Option<String>,
    pub description: Option<String>,
    pub model: Option<String>,
    pub model_config: Option<FrontmatterModelConfig>,
    pub tools: Option<Vec<String>>,
    pub keywords: Option<Vec<String>>,
}

// ---------------------------------------------------------------------------
// Splitting the document
// ---------------------------------------------------------------------------

pub open spec fn strip_bom(s: Seq<char>) -> Seq<char>
    decreases s.len(),
{
    if s.len() > 0 && s[0] == '\u{feff}' {
        strip_bom(s.drop_first())
    } else {
        s
    }
}

/// `i` is the first place where `pat` occurs in `s`.
pub open spec fn first_at(s: Seq<char>, pat: Seq<char>, i: int) -> bool {
    occurs_at(s, pat, i) && forall|j: int| 0 <= j < i ==> !occurs_at(s, pat, j)
}

pub open spec fn drop_one(s: Seq<char>, c: char) -> Seq<char> {
    if s.len() > 0 && s[0] == c {
        s.drop_first()
    } else {
        s
    }
}

/// What follows the opening `---` line, or nothing when the document has none.
pub open spec fn after_opening(doc: Seq<char>) -> Option<Seq<char>> {
    let t = strip_bom(doc);
    if !(t.len() >= 3 && t.subrange(0, 3) == "---"@) {
        None
    } else {
        let rest = drop_one(t.subrange(3, t.len() as int), '\r');
        if rest.len() > 0 && rest[0] == '\n' {
            Some(rest.drop_first())
        } else {
            None
        }
    }
}

/// The front matter (trimmed) and the body of a document: the front matter runs up to the
/// first line that starts with `---`; without one, a document ending in `---` has an empty
/// body.
pub open spec fn split_spec(doc: Seq<char>) -> Option<(Seq<char>, Seq<char>)> {
    match after_opening(doc) {
        None => None,
        Some(rest) => if contains(rest, "\n---"@) {
            let i = choose|i: int| first_at(rest, "\n---"@, i);
            Some((trim(rest.subrange(0, i)), drop_one(drop_one(rest.subrange(i + 4, rest.len() as int), '\r'), '\n')))
        } else if rest.len() >= 3 && rest.subrange(rest.len() - 3, rest.len() as int) == "---"@ {
            Some((trim(rest.subrange(0, rest.len() - 3)), Seq::empty()))
        } else {
            None
        },
    }
}

proof fn lemma_first_unique(s: Seq<char>, pat: Seq<char>, i: int, j: int)
    requires
        first_at(s, pat, i),
        first_at(s, pat, j),
    ensures
        i == j,
{
    if i < j {
        assert(!occurs_at(s, pat, i));
    } else if j < i {
        assert(!occurs_at(s, pat, j));
    }
}

fn skip_char(v: &Vec<char>, i: usize, c: char) -> (j: usize)
    requires
        i <= v@.len(),
    ensures
        j <= v@.len(),
        v@.subrange(j as int, v@.len() as int) == drop_one(v@.subrange(i as int, v@.len() as int), c),
{
    if i < v.len() && v[i] == c {
        assert(v@.subrange(i as int, v@.len() as int).drop_first() =~= v@.subrange(i + 1, v@.len() as int));
        i + 1
    } else {
        i
    }
}

fn matches_at(v: &Vec<char>, i: usize, p: &str) -> (r: bool)
    requires
        i <= v@.len(),
    ensures
        r == occurs_at(v@.subrange(i as int, v@.len() as int), p@, 0),
{
    let pv = chars_of(p);
    let ghost rest = v@.subrange(i as int, v@.len() as int);
    if pv.len() > v.len() - i {
        return false;
    }
    let mut k: usize = 0;
    while k < pv.len()
        invariant
            pv@ == p@,
            pv@.len() <= v@.len() - i,
            rest == v@.subrange(i as int, v@.len() as int),
            k <= pv@.len(),
            forall|m: int| 0 <= m < k ==> rest[m] == pv@[m],
        decreases pv@.len() - k,
    {
        let vl = v.len();
        assert(i + k < vl);
        if v[i + k] != pv[k] {
            assert(rest.subrange(0, pv@.len() as int)[k as int] != pv@[k as int]);
            return false;
        }
        k += 1;
    }
    assert(rest.subrange(0, pv@.len() as int) =~= pv@);
    true
}

/// Splits a document into its front matter and its body.
pub fn split_frontmatter(contents: &str) -> (r: Result<(String, String), ParserError>)
    ensures
        match r {
            Ok((fm, body)) => split_spec(contents@) == Some((fm@, body@)),
            Err(e) => split_spec(contents@) is None && e == ParserError::MissingFrontmatter,
        },
{
    let v = chars_of(contents);
    let n = v.len();
    let mut s: usize = 0;
    assert(v@.subrange(0, n as int) =~= v@);
    while s < n && v[s] == '\u{feff}'
        invariant
            s <= n,
            n == v@.len(),
            v@ == contents@,
            strip_bom(contents@) == strip_bom(v@.subrange(s as int, n as int)),
        decreases n - s,
    {
        assert(v@.subrange(s as int, n as int).drop_first() =~= v@.subrange(s + 1, n as int));
        s += 1;
    }
    let ghost t = v@.subrange(s as int, n as int);
    proof {
        if t.len() > 0 {
            assert(t[0] == v@[s as int]);
        }
        assert(strip_bom(contents@) == t);
    }
    if !matches_at(&v, s, "---") {
        proof {
            reveal_strlit("---");
            if t.len() >= 3 {
                assert(occurs_at(t, "---"@, 0) == (t.subrange(0, 3) == "---"@));
            }
        }
        return Err(ParserError::MissingFrontmatter);
    }
    proof {
        reveal_strlit("---");
        assert(t.subrange(3, t.len() as int) =~= v@.subrange(s + 3, n as int));
    }
    let a = skip_char(&v, s + 3, '\r');
    if !(a < n && v[a] == '\n') {
        proof {
            let rest = v@.subrange(a as int, n as int);
            if rest.len() > 0 {
                assert(rest[0] == v@[a as int]);
            }
        }
        return Err(ParserError::MissingFrontmatter);
    }
    let b = a + 1;
    let ghost rest = v@.subrange(b as int, n as int);
    assert(v@.subrange(a as int, n as int).drop_first() =~= rest);
    assert(v@.subrange(a as int, n as int)[0] == v@[a as int]);
    assert(after_opening(contents@) == Some(rest));
    // look for the closing line
    let mut i: usize = b;
    while i < n
        invariant
            b <= i <= n,
            n == v@.len(),
            rest == v@.subrange(b as int, n as int),
            v@ == contents@,
            after_opening(contents@) == Some(rest),
            forall|j: int| 0 <= j < i - b ==> !occurs_at(rest, "\n---"@, j),
        decreases n - i,
    {
        if matches_at(&v, i, "\n---") {
            proof {
                assert(rest.subrange(i - b, rest.len() as int) =~= v@.subrange(i as int, n as int));
                reveal_strlit("\n---");
                assert(v@.subrange(i as int, n as int).subrange(0, 4) =~= rest.subrange(i - b, i - b + 4));
                assert(occurs_at(rest, "\n---"@, i - b));
                assert(first_at(rest, "\n---"@, i - b));
                let k = choose|k: int| first_at(rest, "\n---"@, k);
                lemma_first_unique(rest, "\n---"@, k, i - b);
            }
            let fm_raw = string_of(&v, b, i);
            let fm = trim_string(fm_raw.as_str());
            let c = skip_char(&v, i + 4, '\r');
            let d = skip_char(&v, c, '\n');
            let body = string_of(&v, d, n);
            proof {
                assert(rest.subrange(0, i - b) =~= v@.subrange(b as int, i as int));
                assert(rest.subrange(i - b + 4, rest.len() as int) =~= v@.subrange(i + 4, n as int));
            }
            proof {
                assert(contains(rest, "\n---"@));
            }
            return Ok((fm, body));
        }
        proof {
            reveal_strlit("\n---");
            assert(rest.subrange(i - b, rest.len() as int) =~= v@.subrange(i as int, n as int));
            if occurs_at(rest, "\n---"@, i - b) {
                assert(v@.subrange(i as int, n as int).subrange(0, 4) =~= rest.subrange(i - b, i - b + 4));
            }
        }
        i += 1;
    }
    proof {
        reveal_strlit("\n---");
        assert forall|j: int| !occurs_at(rest, "\n---"@, j) by {
            if 0 <= j && j + 4 <= rest.len() {
                assert(j < i - b);
            }
        }
    }
    if n - b >= 3 && matches_at(&v, n - 3, "---") {
        proof {
            reveal_strlit("---");
            assert(v@.subrange(n - 3, n as int).subrange(0, 3) =~= rest.subrange(rest.len() - 3, rest.len() as int));
            assert(rest.subrange(0, rest.len() - 3) =~= v@.subrange(b as int, n - 3));
        }
        let fm_raw = string_of(&v, b, n - 3);
        let fm = trim_string(fm_raw.as_str());
        return Ok((fm, String::new()));
    }
    proof {
        reveal_strlit("---");
        if rest.len() >= 3 && rest.subrange(rest.len() - 3, rest.len() as int) == "---"@ {
            assert(v@.subrange(n - 3, n as int).subrange(0, 3) =~= rest.subrange(rest.len() - 3, rest.len() as int));
        }
    }
    Err(ParserError::MissingFrontmatter)
}

// ---------------------------------------------------------------------------
// From front matter to definition
// ---------------------------------------------------------------------------

/// A value with surrounding white space removed, or nothing when it is blank.
pub open spec fn normalized(o: Option<String>) -> Option<Seq<char>> {
    match o {
        Some(s) => if trim(s@).len() == 0 {
            None
        } else {
            Some(trim(s@))
        },
        None => None,
    }
}

pub fn normalize_optional_string(value: Option<String>) -> (r: Option<String>)
    ensures
        opt_str(r) == normalized(value),
{
    match value {
        Some(s) => {
            let t = trim_string(s.as_str());
            if t.as_str().unicode_len() == 0 {
                None
            } else {
                Some(t)
            }
        },
        None => None,
    }
}

fn trimmed_required(value: &Option<String>, err: SubagentValidationError) -> (r: Result<Option<String>, SubagentValidationError>)
    ensures
        match r {
            Ok(o) => match *value {
                Some(s) => trim(s@).len() > 0 && opt_str(o) == Some(trim(s@)),
                None => o is None,
            },
            Err(e) => e == err && value is Some && trim(value.unwrap()@).len() == 0,
        },
{
    match value {
        Some(s) => {
            let t = trim_string(s.as_str());
            if t.as_str().unicode_len() == 0 {
                Err(err)
            } else {
                Ok(Some(t))
            }
        },
        None => Ok(None),
    }
}

/// A parameter as plain values: key and value.
pub type ParamV = (Seq<char>, Seq<char>);

pub open spec fn param_views(v: Seq<(String, String)>) -> Seq<ParamV> {
    v.map_values(|p: (String, String)| (p.0@, p.1@))
}

/// The first parameter with key `k` among the first `n`, or -1.
pub open spec fn find_key(s: Seq<ParamV>, k: Seq<char>, n: int) -> int
    decreases n,
{
    if n <= 0 {
        -1
    } else if find_key(s, k, n - 1) >= 0 {
        find_key(s, k, n - 1)
    } else if s[n - 1].0 == k {
        n - 1
    } else {
        -1
    }
}

/// The parameters as a map with one entry per trimmed key: a later value for a key replaces
/// the earlier one in its place.
pub open spec fn merged_params(raw: Seq<(String, String)>, n: int) -> Seq<ParamV>
    decreases n,
{
    if n <= 0 {
        Seq::empty()
    } else {
        let prev = merged_params(raw, n - 1);
        let p = (trim(raw[n - 1].0@), raw[n - 1].1@);
        let i = find_key(prev, p.0, prev.len() as int);
        if i >= 0 {
            prev.update(i, p)
        } else {
            prev.push(p)
        }
    }
}

/// No two parameters share a key.
pub open spec fn keys_unique(s: Seq<ParamV>) -> bool {
    forall|i: int, j: int| 0 <= i < s.len() && 0 <= j < s.len() && i != j ==> (#[trigger] s[i]).0 != (#[trigger] s[j]).0
}

proof fn lemma_find_key_in(s: Seq<ParamV>, k: Seq<char>, n: int)
    requires
        0 <= n <= s.len(),
    ensures
        find_key(s, k, n) < n,
        find_key(s, k, n) >= 0 ==> s[find_key(s, k, n)].0 == k,
        find_key(s, k, n) < 0 ==> forall|m: int| 0 <= m < n ==> (#[trigger] s[m]).0 != k,
    decreases n,
{
    if n > 0 {
        lemma_find_key_in(s, k, n - 1);
    }
}

proof fn lemma_find_key_stable(s: Seq<ParamV>, k: Seq<char>, n: int, m: int)
    requires
        1 <= n <= m <= s.len(),
        find_key(s, k, n) >= 0,
    ensures
        find_key(s, k, m) == find_key(s, k, n),
    decreases m - n,
{
    if m > n {
        lemma_find_key_stable(s, k, n, m - 1);
    }
}

/// The merged parameters have one entry per key.
pub proof fn lemma_merged_unique(raw: Seq<(String, String)>, n: int)
    ensures
        keys_unique(merged_params(raw, n)),
    decreases n,
{
    if n > 0 {
        lemma_merged_unique(raw, n - 1);
        let prev = merged_params(raw, n - 1);
        let p = (trim(raw[n - 1].0@), raw[n - 1].1@);
        lemma_find_key_in(prev, p.0, prev.len() as int);
        let i = find_key(prev, p.0, prev.len() as int);
        let t = merged_params(raw, n);
        assert forall|a: int, b: int| 0 <= a < t.len() && 0 <= b < t.len() && a != b implies (#[trigger] t[a]).0 != (#[trigger] t[b]).0 by {
            if i >= 0 {
                assert(t[a].0 == prev[a].0 && t[b].0 == prev[b].0);
            } else if a < prev.len() && b < prev.len() {
                assert(t[a] == prev[a] && t[b] == prev[b]);
            } else if a < prev.len() {
                assert(t[a] == prev[a]);
            } else {
                assert(t[b] == prev[b]);
            }
        }
    }
}

/// The parameters with their keys trimmed, or the error for a blank key.
pub open spec fn params_ok(raw: Seq<(String, String)>) -> bool {
    forall|i: int| 0 <= i < raw.len() ==> trim((#[trigger] raw[i]).0@).len() > 0
}

/// The `model_config` block is usable: provider and endpoint, where given, are not blank,
/// no parameter key is blank, and its model does not contradict the plain model `simple`.
pub open spec fn config_ok(raw: FrontmatterModelConfig, simple: Option<Seq<char>>) -> bool {
    &&& (raw.provider is Some ==> trim(raw.provider.unwrap()@).len() > 0)
    &&& (raw.endpoint is Some ==> trim(raw.endpoint.unwrap()@).len() > 0)
    &&& params_ok(raw.parameters@)
    &&& ((simple is Some && normalized(raw.model) is Some) ==> simple.unwrap() == normalized(raw.model).unwrap())
}

/// Turns the `model_config` block into a binding, checked against the plain `model`.
pub fn parse_model_config(raw: &FrontmatterModelConfig, simple_model: &Option<String>) -> (r: Result<
    ModelBinding,
    SubagentValidationError,
>)
    ensures
        r is Ok <==> config_ok(*raw, opt_str(*simple_model)),
        match r {
            Ok(b) => {
                &&& opt_str(b.provider_id) == normalized(raw.provider)
                &&& opt_str(b.endpoint) == normalized(raw.endpoint)
                &&& params_ok(raw.parameters@)
                &&& param_views(b.parameters@) == merged_params(raw.parameters@, raw.parameters@.len() as int)
                &&& keys_unique(param_views(b.parameters@))
                &&& opt_str(b.model) == match normalized(raw.model) {
                    Some(m) => Some(m),
                    None => opt_str(*simple_model),
                }
                &&& (simple_model is Some && normalized(raw.model) is Some) ==> simple_model.unwrap()@
                    == normalized(raw.model).unwrap()
                &&& raw.provider is Some ==> trim(raw.provider.unwrap()@).len() > 0
                &&& raw.endpoint is Some ==> trim(raw.endpoint.unwrap()@).len() > 0
            },
            Err(e) => {
                ||| (e == SubagentValidationError::InvalidModelProvider && raw.provider is Some && trim(raw.provider.unwrap()@).len() == 0)
                ||| (e == SubagentValidationError::InvalidModelEndpoint && raw.endpoint is Some && trim(raw.endpoint.unwrap()@).len() == 0)
                ||| (e == SubagentValidationError::InvalidModelParameterKey && !params_ok(raw.parameters@))
                ||| (match e {
                    SubagentValidationError::ConflictingModelDefinitions { model, model_config } =>
                        simple_model is Some && model@ == simple_model.unwrap()@ && normalized(raw.model) == Some(model_config@)
                            && model@ != model_config@,
                    _ => false,
                })
            },
        },
{
    let provider_id = match trimmed_required(&raw.provider, SubagentValidationError::InvalidModelProvider) {
        Ok(p) => p,
        Err(e) => {
            return Err(e);
        },
    };
    let endpoint = match trimmed_required(&raw.endpoint, SubagentValidationError::InvalidModelEndpoint) {
        Ok(p) => p,
        Err(e) => {
            return Err(e);
        },
    };
    let mut parameters: Vec<(String, String)> = Vec::new();
    let mut i: usize = 0;
    while i < raw.parameters.len()
        invariant
            i <= raw.parameters@.len(),
            forall|k: int| 0 <= k < i ==> trim((#[trigger] raw.parameters@[k]).0@).len() > 0,
            param_views(parameters@) == merged_params(raw.parameters@, i as int),
        decreases raw.parameters@.len() - i,
    {
        let key = trim_string(raw.parameters[i].0.as_str());
        if key.as_str().unicode_len() == 0 {
            return Err(SubagentValidationError::InvalidModelParameterKey);
        }
        let value = raw.parameters[i].1.clone();
        let ghost prev = param_views(parameters@);
        let ghost p = (key@, value@);
        // look for an earlier entry with the same key
        let mut j: usize = 0;
        let mut found: Option<usize> = None;
        while j < parameters.len()
            invariant
                j <= parameters@.len(),
                prev == param_views(parameters@),
                found is None ==> find_key(prev, key@, j as int) < 0,
                found is Some ==> found.unwrap() < parameters@.len() && found.unwrap() as int == find_key(prev, key@, prev.len() as int),
            decreases parameters@.len() - j,
        {
            if found.is_none() && same_text(parameters[j].0.as_str(), key.as_str()) {
                proof {
                    assert(prev[j as int].0 == key@);
                    lemma_find_key_stable(prev, key@, j + 1, prev.len() as int);
                }
                found = Some(j);
            }
            j += 1;
        }
        match found {
            Some(k) => {
                parameters.set(k, (key, value));
                assert(param_views(parameters@) =~= prev.update(k as int, p));
            },
            None => {
                parameters.push((key, value));
                assert(param_views(parameters@) =~= prev.push(p));
            },
        }
        i += 1;
    }
    proof {
        lemma_merged_unique(raw.parameters@, raw.parameters@.len() as int);
    }
    let model = normalize_optional_string(copy_opt(&raw.model));
    let model = match simple_model {
        Some(m) => match model {
            Some(bm) => {
                if !same_text(bm.as_str(), m.as_str()) {
                    return Err(
                        SubagentValidationError::ConflictingModelDefinitions {
                            model: m.clone(),
                            model_config: bm,
                        },
                    );
                }
                Some(bm)
            },
            None => Some(m.clone()),
        },
        None => model,
    };
    Ok(ModelBinding { provider_id, model, endpoint, parameters })
}

/// A declared list is usable: it is absent, empty, or keeps an entry once cleaned.
pub open spec fn list_declared_ok(o: Option<Vec<String>>) -> bool {
    match o {
        Some(v) => v@.len() == 0 || cleaned(v@, v@.len() as int).len() > 0,
        None => true,
    }
}

/// A front matter and body make a definition: the name is present and valid, the body is
/// not blank, no declared list cleans to nothing, and the model block is usable.
pub open spec fn parses(front: Frontmatter, body: Seq<char>) -> bool {
    &&& front.name is Some
    &&& crate::spec::valid_agent_name(front.name.unwrap()@)
    &&& trim(body).len() > 0
    &&& list_declared_ok(front.tools)
    &&& list_declared_ok(front.keywords)
    &&& match front.model_config {
        Some(cfg) => config_ok(cfg, normalized(front.model)),
        None => true,
    }
}

/// The model shown for a parsed definition: the plain one, else the model block's.
pub open spec fn parsed_model(front: Frontmatter) -> Option<Seq<char>> {
    match normalized(front.model) {
        Some(m) => Some(m),
        None => match front.model_config {
            Some(cfg) => normalized(cfg.model),
            None => None,
        },
    }
}

/// The binding of a parsed definition: the checked model block, or one holding only the
/// plain model, or none.
pub open spec fn parsed_binding_ok(front: Frontmatter, b: Option<ModelBinding>) -> bool {
    match front.model_config {
        Some(cfg) => match b {
            Some(mb) => {
                &&& opt_str(mb.provider_id) == normalized(cfg.provider)
                &&& opt_str(mb.endpoint) == normalized(cfg.endpoint)
                &&& opt_str(mb.model) == parsed_model(front)
                &&& param_views(mb.parameters@) == merged_params(cfg.parameters@, cfg.parameters@.len() as int)
            },
            None => false,
        },
        None => match normalized(front.model) {
            Some(m) => match b {
                Some(mb) => mb.provider_id is None && mb.endpoint is None && opt_str(mb.model) == Some(m)
                    && mb.parameters@.len() == 0,
                None => false,
            },
            None => b is None,
        },
    }
}

/// Entries that are already trimmed stay as they are when trimmed again.
proof fn lemma_cleaned_trimmed(c: Seq<String>, items: Seq<String>)
    requires
        c.map_values(|s: String| s@) == cleaned(items, items.len() as int),
    ensures
        crate::spec::trimmed_all(c) == c.map_values(|s: String| s@),
{
    crate::agent::lemma_cleaned_elems(items, items.len() as int);
    assert forall|i: int| 0 <= i < c.len() implies trim(c[i]@) == c[i]@ by {
        assert(c.map_values(|s: String| s@)[i] == c[i]@);
        let s = choose|s: Seq<char>| cleaned(items, items.len() as int)[i] == trim(s);
        crate::text::lemma_trim_idempotent(s);
    }
    assert(crate::spec::trimmed_all(c) =~= c.map_values(|s: String| s@));
}

/// A cleaned list passes the builder's checks.
proof fn lemma_cleaned_list_ok(c: Seq<String>, items: Seq<String>)
    requires
        c.map_values(|s: String| s@) == cleaned(items, items.len() as int),
    ensures
        crate::spec::list_ok(c),
{
    lemma_cleaned_trimmed(c, items);
    crate::agent::lemma_cleaned_distinct(items, items.len() as int);
    let t = crate::spec::trimmed_all(c);
    assert forall|i: int| 0 <= i < c.len() implies !crate::spec::bad_entry(t, i) by {
        assert(t[i] == cleaned(items, items.len() as int)[i]);
        if exists|k: int| 0 <= k < i && t[k] == t[i] {
            let k = choose|k: int| 0 <= k < i && t[k] == t[i];
            assert(t[k] == cleaned(items, items.len() as int)[k]);
        }
    }
}

/// Builds a definition from its front matter and body: the name is required and checked,
/// the body (trimmed) becomes the instructions and must not be blank, the plain model is
/// trimmed, and the model binding is checked against it.
pub fn parse_agent_fields(front: Frontmatter, body: &str, path: &str, source: AgentSource) -> (r:
    Result<ParsedAgent, ParserError>)
    ensures
        r is Ok <==> parses(front, body@),
        front.name is None ==> r == Err::<ParsedAgent, ParserError>(
            ParserError::Validation(SubagentValidationError::MissingField("name")),
        ),
        front.name is Some && !crate::spec::valid_agent_name(front.name.unwrap()@) ==> (match r {
            Err(ParserError::Validation(SubagentValidationError::InvalidName { name, .. })) => name@
                == front.name.unwrap()@,
            _ => false,
        }),
        front.name is Some && crate::spec::valid_agent_name(front.name.unwrap()@) && trim(body@).len()
            == 0 ==> r == Err::<ParsedAgent, ParserError>(
            ParserError::Validation(SubagentValidationError::MissingField("instructions")),
        ),
        (front.tools is Some && front.tools.unwrap()@.len() > 0 && cleaned(front.tools.unwrap()@, front.tools.unwrap()@.len() as int).len() == 0)
            ==> r is Err,
        (front.keywords is Some && front.keywords.unwrap()@.len() > 0 && cleaned(front.keywords.unwrap()@, front.keywords.unwrap()@.len() as int).len() == 0)
            ==> r is Err,
        match r {
            Ok(p) => {
                &&& front.name is Some && p.spec.metadata.name@ == front.name.unwrap()@
                &&& p.spec.instructions@ == trim(body@)
                &&& p.spec.source == source
                &&& opt_str(p.spec.source_path) == Some(path@)
                &&& p.spec.metadata.description == front.description
                &&& opt_str(p.spec.metadata.model) == parsed_model(front)
                &&& parsed_binding_ok(front, p.spec.metadata.model_config)
                &&& match front.tools {
                    Some(t) => p.spec.metadata.tools@.map_values(|s: String| s@) == cleaned(t@, t@.len() as int),
                    None => p.spec.metadata.tools@.len() == 0,
                }
                &&& match front.keywords {
                    Some(k) => p.spec.metadata.keywords@.map_values(|s: String| s@) == cleaned(k@, k@.len() as int),
                    None => p.spec.metadata.keywords@.len() == 0,
                }
                &&& p.warnings@.len() == 0
            },
            Err(_) => true,
        },
{
    let name = match front.name {
        Some(n) => n,
        None => {
            return Err(ParserError::Validation(SubagentValidationError::MissingField("name")));
        },
    };
    match crate::spec::validate_agent_name(name.as_str()) {
        Ok(()) => {},
        Err(e) => {
            return Err(ParserError::Validation(e));
        },
    }
    let instructions = trim_string(body);
    if instructions.as_str().unicode_len() == 0 {
        return Err(ParserError::Validation(SubagentValidationError::MissingField("instructions")));
    }
    let simple_model = normalize_optional_string(front.model);
    let binding = match &front.model_config {
        Some(cfg) => match parse_model_config(cfg, &simple_model) {
            Ok(b) => Some(b),
            Err(e) => {
                return Err(ParserError::Validation(e));
            },
        },
        None => match &simple_model {
            Some(m) => Some(
                ModelBinding {
                    provider_id: None,
                    model: Some(m.clone()),
                    endpoint: None,
                    parameters: Vec::new(),
                },
            ),
            None => None,
        },
    };
    let mut builder = SubagentBuilder::new(name.as_str())
        .description(front.description)
        .model(simple_model)
        .model_config(binding)
        .source(source)
        .source_path(path)
        .instructions(instructions.as_str());
    match front.tools {
        Some(t) => {
            let n = t.len();
            let ghost items = t@;
            let c = clean_list(t);
            if n > 0 && c.len() == 0 {
                return Err(ParserError::Validation(SubagentValidationError::EmptyTool));
            }
            proof {
                lemma_cleaned_trimmed(c@, items);
                lemma_cleaned_list_ok(c@, items);
            }
            builder = builder.tools(c);
        },
        None => {},
    }
    match front.keywords {
        Some(k) => {
            let n = k.len();
            let ghost items = k@;
            let c = clean_list(k);
            if n > 0 && c.len() == 0 {
                return Err(ParserError::Validation(SubagentValidationError::EmptyKeyword));
            }
            proof {
                lemma_cleaned_trimmed(c@, items);
                lemma_cleaned_list_ok(c@, items);
            }
            builder = builder.keywords(c);
        },
        None => {},
    }
    proof {
        assert(crate::spec::trimmed_all(Seq::<String>::empty()) =~= Seq::<Seq<char>>::empty());
    }
    let ghost b = builder;
    proof {
        crate::text::lemma_trim_idempotent(body@);
        assert(crate::spec::list_ok(b.tools@));
        assert(crate::spec::list_ok(b.keywords@));
        assert(crate::spec::buildable(b));
    }
    match builder.build() {
        Ok(spec) => {
            assert(spec.metadata.name@ == name@);
            assert(spec.instructions@ == trim(body@));
            assert(spec.source == source);
            assert(opt_str(spec.source_path) == Some(path@));
            assert(spec.metadata.description == front.description);
            assert(spec.metadata.tools@.map_values(|s: String| s@).len() == spec.metadata.tools@.len());
            assert(spec.metadata.keywords@.map_values(|s: String| s@).len() == spec.metadata.keywords@.len());
            assert(crate::spec::trimmed_all(b.tools@).len() == b.tools@.len());
            assert(crate::spec::trimmed_all(b.keywords@).len() == b.keywords@.len());
            Ok(ParsedAgent { spec, warnings: Vec::new() })
        },
        Err(e) => Err(ParserError::Validation(e)),
    }
}

} // verus!
