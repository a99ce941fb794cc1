use vstd::prelude::*;
use vstd::string::StringExecFns;
use vstd::utf8::encode_utf8;
use sha1::Digest;
use crate::pipeline::{copy_opt, opt_str};
use crate::text::{same_text, trim, trim_string};

verus! {

// ---------------------------------------------------------------------------
// Sources and errors
// ---------------------------------------------------------------------------

/// Where a definition came from.
#[derive(Debug, Clone, Copy, PartialEq, Eq, Structural)]
pub enum AgentSource {
    Project,
    User,
    Builtin,
    Inline,
}

impl AgentSource {
    pub fn describe(self) -> (r: &'static str)
        ensures
            self == AgentSource::Project ==> r@ == "project"@,
            self == AgentSource::User ==> r@ == "user"@,
            self == AgentSource::Builtin ==> r@ == "builtin"@,
            self == AgentSource::Inline ==> r@ == "inline"@,
    {
        match self {
            AgentSource::Project => "project",
            AgentSource::User => "user",
            AgentSource::Builtin => "builtin",
            AgentSource::Inline => "inline",
        }
    }
}

/// Why a definition is not a valid subagent.
#[derive(Debug, Clone, PartialEq, Eq)]
pub enum SubagentValidationError {
    MissingField(&'static str),
    InvalidName { name: String, reason: String },
    DuplicateTool(String),
    DuplicateKeyword(String),
    EmptyTool,
    EmptyKeyword,
    InvalidModelProvider,
    InvalidModelEndpoint,
    InvalidModelParameterKey,
    ConflictingModelDefinitions { model: String, model_config: String },
}

/// A definition file that could not be used, and why.
#[derive(Debug, Clone, PartialEq, Eq)]
pub struct AgentParseError {
    pub path: String,
    pub message: String,
}

impl AgentParseError {
    pub fn new(path: String, message: &str) -> (r: Self)
        ensures
            r.path == path,
            r.message@ == message@,
    {
        AgentParseError { path, message: String::from_str(message) }
    }
}

// ---------------------------------------------------------------------------
// Names
// ---------------------------------------------------------------------------

pub open spec fn name_tail_char(c: char) -> bool {
    ('a' <= c && c <= 'z') || ('0' <= c && c <= '9') || c == '_' || c == '-'
}

/// `^[a-z][a-z0-9_-]{2,63}$`: a lower-case letter, then 2 to 63 lower-case letters, digits,
/// hyphens or underscores.
pub open spec fn valid_agent_name(s: Seq<char>) -> bool {
    &&& 3 <= s.len() <= 64
    &&& 'a' <= s[0] && s[0] <= 'z'
    &&& forall|i: int| 1 <= i < s.len() ==> name_tail_char(#[trigger] s[i])
}

pub open spec fn name_rule() -> Seq<char> {
    "name must start with a lowercase letter, include only lowercase letters, digits, hyphen, or underscore, and be 3-64 characters long"@
}

/// Checks `name` against the grammar of agent names.
pub fn validate_agent_name(name: &str) -> (r: Result<(), SubagentValidationError>)
    ensures
        r is Ok <==> valid_agent_name(name@),
        r is Err ==> (match r {
            Err(SubagentValidationError::InvalidName { name: n, reason }) => n@ == name@ && reason@
                == name_rule(),
            _ => false,
        }),
{
    let v = crate::text::chars_of(name);
    let mut ok = 3 <= v.len() && v.len() <= 64 && 'a' <= v[0] && v[0] <= 'z';
    let mut i: usize = 1;
    while ok && i < v.len()
        invariant
            v@ == name@,
            1 <= i <= v@.len() || !ok,
            ok ==> 3 <= v@.len() <= 64 && 'a' <= v@[0] && v@[0] <= 'z',
            ok ==> forall|k: int| 1 <= k < i ==> name_tail_char(#[trigger] v@[k]),
            !ok ==> !valid_agent_name(name@),
        decreases v@.len() - i,
    {
        let c = v[i];
        if !(('a' <= c && c <= 'z') || ('0' <= c && c <= '9') || c == '_' || c == '-') {
            assert(!name_tail_char(v@[i as int]));
            ok = false;
        }
        i += 1;
    }
    if ok {
        Ok(())
    } else {
        Err(
            SubagentValidationError::InvalidName {
                name: String::from_str(name),
                reason: String::from_str(
                    "name must start with a lowercase letter, include only lowercase letters, digits, hyphen, or underscore, and be 3-64 characters long",
                ),
            },
        )
    }
}

// ---------------------------------------------------------------------------
// Tool and keyword lists
// ---------------------------------------------------------------------------

pub open spec fn trimmed_all(items: Seq<String>) -> Seq<Seq<char>> {
    items.map_values(|s: String| trim(s@))
}

/// Entry `i` is blank, or repeats an earlier entry.
pub open spec fn bad_entry(t: Seq<Seq<char>>, i: int) -> bool {
    t[i].len() == 0 || exists|k: int| 0 <= k < i && t[k] == t[i]
}

pub open spec fn first_bad_entry(t: Seq<Seq<char>>, i: int) -> bool {
    &&& 0 <= i < t.len()
    &&& bad_entry(t, i)
    &&& forall|j: int| 0 <= j < i ==> !bad_entry(t, j)
}

/// The error that `normalize_unique` reports for entry `i`.
pub open spec fn list_error_ok(
    t: Seq<Seq<char>>,
    i: int,
    keywords: bool,
    e: SubagentValidationError,
) -> bool {
    if t[i].len() == 0 {
        e == if keywords {
            SubagentValidationError::EmptyKeyword
        } else {
            SubagentValidationError::EmptyTool
        }
    } else {
        match e {
            SubagentValidationError::DuplicateKeyword(s) => keywords && s@ == t[i],
            SubagentValidationError::DuplicateTool(s) => !keywords && s@ == t[i],
            _ => false,
        }
    }
}

/// The entries trimmed, or the first blank or repeated one as an error.
pub fn normalize_unique(items: Vec<String>, keywords: bool) -> (r: Result<
    Vec<String>,
    SubagentValidationError,
>)
    ensures
        match r {
            Ok(v) => {
                &&& forall|i: int| 0 <= i < items@.len() ==> !bad_entry(trimmed_all(items@), i)
                &&& v@.map_values(|s: String| s@) == trimmed_all(items@)
            },
            Err(e) => exists|i: int|
                first_bad_entry(trimmed_all(items@), i) && list_error_ok(
                    trimmed_all(items@),
                    i,
                    keywords,
                    e,
                ),
        },
{
    let ghost t = trimmed_all(items@);
    let mut out: Vec<String> = Vec::new();
    let mut i: usize = 0;
    while i < items.len()
        invariant
            i <= items@.len(),
            t == trimmed_all(items@),
            t.len() == items@.len(),
            out@.len() == i,
            out@.map_values(|s: String| s@) == t.subrange(0, i as int),
            forall|j: int| 0 <= j < i ==> !bad_entry(t, j),
        decreases items@.len() - i,
    {
        let trimmed = trim_string(items[i].as_str());
        assert(trimmed@ == t[i as int]);
        if trimmed.as_str().unicode_len() == 0 {
            assert(first_bad_entry(t, i as int));
            return Err(
                if keywords {
                    SubagentValidationError::EmptyKeyword
                } else {
                    SubagentValidationError::EmptyTool
                },
            );
        }
        assert(t[i as int].len() != 0);
        let mut k: usize = 0;
        while k < out.len()
            invariant
                k <= out@.len(),
                t[i as int].len() != 0,
                t == trimmed_all(items@),
                out@.len() == i,
                i < items@.len(),
                t.len() == items@.len(),
                forall|j: int| 0 <= j < i ==> !bad_entry(t, j),
                trimmed@ == t[i as int],
                out@.map_values(|s: String| s@) == t.subrange(0, i as int),
                forall|m: int| 0 <= m < k ==> t[m] != t[i as int],
            decreases out@.len() - k,
        {
            assert(out@.map_values(|s: String| s@)[k as int] == out@[k as int]@);
            assert(out@[k as int]@ == t[k as int]);
            if same_text(out[k].as_str(), trimmed.as_str()) {
                assert(bad_entry(t, i as int));
                assert(first_bad_entry(t, i as int));
                let e = if keywords {
                    SubagentValidationError::DuplicateKeyword(trimmed)
                } else {
                    SubagentValidationError::DuplicateTool(trimmed)
                };
                assert(t[i as int].len() != 0);
                assert(list_error_ok(t, i as int, keywords, e));
                return Err(e);
            }
            k += 1;
        }
        let ghost before = out@;
        out.push(trimmed);
        assert(out@.map_values(|s: String| s@) =~= t.subrange(0, i + 1));
        i += 1;
    }
    assert(t.subrange(0, items@.len() as int) =~= t);
    Ok(out)
}

// ---------------------------------------------------------------------------
// Definitions
// ---------------------------------------------------------------------------

/// How a subagent's model is reached. Parameter values are kept as written, as text.
#[derive(Debug, Clone, PartialEq, Eq)]
pub struct ModelBinding {
    pub provider_id: Option<String>,
    pub model: Option<String>,
    pub endpoint: Option<String>,
    pub parameters: Vec<(String, String)>,
}

/// What a definition declares about itself.
#[derive(Debug, Clone, PartialEq, Eq)]
pub struct SubagentMetadata {
    pub name: String,
    pub description: Option<String>,
    pub model: Option<String>,
    pub model_config: Option<ModelBinding>,
    pub tools: Vec<String>,
    pub keywords: Vec<String>,
}

impl SubagentMetadata {
    pub fn new(name: String) -> (r: Self)
        ensures
            r.name == name,
            r.description is None,
            r.model is None,
            r.model_config is None,
            r.tools@.len() == 0,
            r.keywords@.len() == 0,
    {
        SubagentMetadata {
            name,
            description: None,
            model: None,
            model_config: None,
            tools: Vec::new(),
            keywords: Vec::new(),
        }
    }

    pub fn description(self, description: Option<String>) -> (r: Self)
        ensures
            r == (SubagentMetadata { description, ..self }),
    {
        SubagentMetadata { description, ..self }
    }

    pub fn model(self, model: Option<String>) -> (r: Self)
        ensures
            r == (SubagentMetadata { model, ..self }),
    {
        SubagentMetadata { model, ..self }
    }

    pub fn model_config(self, model_config: Option<ModelBinding>) -> (r: Self)
        ensures
            r == (SubagentMetadata { model_config, ..self }),
    {
        SubagentMetadata { model_config, ..self }
    }

    pub fn tools(self, tools: Vec<String>) -> (r: Self)
        ensures
            r == (SubagentMetadata { tools, ..self }),
    {
        SubagentMetadata { tools, ..self }
    }

    pub fn keywords(self, keywords: Vec<String>) -> (r: Self)
        ensures
            r == (SubagentMetadata { keywords, ..self }),
    {
        SubagentMetadata { keywords, ..self }
    }
}

/// A validated subagent definition.
#[derive(Debug, Clone, PartialEq, Eq)]
pub struct SubagentSpec {
    pub metadata: SubagentMetadata,
    pub instructions: String,
    pub source_path: Option<String>,
    pub source: AgentSource,
    pub hash: String,
}

impl SubagentSpec {
    pub fn instructions_path(&self) -> (r: Option<&String>)
        ensures
            match r {
                Some(p) => self.source_path == Some(*p),
                None => self.source_path is None,
            },
    {
        match &self.source_path {
            Some(p) => Some(p),
            None => None,
        }
    }
}

// ---------------------------------------------------------------------------
// Content digest
// ---------------------------------------------------------------------------

/// The SHA-1 digest of the bytes as lower-case hex, as the `sha1` crate computes it.
pub uninterp spec fn sha1_hex(data: Seq<u8>) -> Seq<char>;

/// Relies on `sha1::Sha1::digest` and the `LowerHex` form of its 20-byte output.
#[verifier::external_body]
fn sha1_digest_hex(data: &Vec<u8>) -> (r: String)
    ensures
        r@ == sha1_hex(data@),
{
    format!("{:x}", sha1::Sha1::digest(data.as_slice()))
}

pub open spec fn opt_bytes(o: Option<String>) -> Seq<u8> {
    match o {
        Some(s) => encode_utf8(s@),
        None => Seq::empty(),
    }
}

pub open spec fn all_bytes(v: Seq<String>) -> Seq<u8>
    decreases v.len(),
{
    if v.len() == 0 {
        Seq::empty()
    } else {
        all_bytes(v.drop_last()) + encode_utf8(v.last()@)
    }
}

pub open spec fn param_bytes(v: Seq<(String, String)>) -> Seq<u8>
    decreases v.len(),
{
    if v.len() == 0 {
        Seq::empty()
    } else {
        param_bytes(v.drop_last()) + encode_utf8(v.last().0@) + encode_utf8(v.last().1@)
    }
}

pub open spec fn binding_bytes(b: Option<ModelBinding>) -> Seq<u8> {
    match b {
        Some(b) => opt_bytes(b.provider_id) + opt_bytes(b.endpoint) + opt_bytes(b.model)
            + param_bytes(b.parameters@),
        None => Seq::empty(),
    }
}

/// The bytes that the content digest covers: name, instructions, model, model binding, tools
/// and keywords, in that order.
pub open spec fn digest_input(m: SubagentMetadata, instructions: Seq<char>) -> Seq<u8> {
    encode_utf8(m.name@) + encode_utf8(instructions) + opt_bytes(m.model) + binding_bytes(
        m.model_config,
    ) + all_bytes(m.tools@) + all_bytes(m.keywords@)
}

fn push_bytes(out: &mut Vec<u8>, s: &str)
    ensures
        final(out)@ == old(out)@ + encode_utf8(s@),
{
    let b = s.as_bytes();
    let ghost start = out@;
    let mut i: usize = 0;
    while i < b.len()
        invariant
            i <= b@.len(),
            b@ == encode_utf8(s@),
            out@ == start + b@.subrange(0, i as int),
        decreases b@.len() - i,
    {
        out.push(b[i]);
        assert(out@ =~= start + b@.subrange(0, i + 1));
        i += 1;
    }
    assert(b@.subrange(0, b@.len() as int) =~= b@);
}

fn push_opt_bytes(out: &mut Vec<u8>, o: &Option<String>)
    ensures
        final(out)@ == old(out)@ + opt_bytes(*o),
{
    match o {
        Some(s) => push_bytes(out, s.as_str()),
        None => {
            assert(out@ =~= out@ + Seq::<u8>::empty());
        },
    }
}

fn push_all_bytes(out: &mut Vec<u8>, v: &Vec<String>)
    ensures
        final(out)@ == old(out)@ + all_bytes(v@),
{
    let ghost start = out@;
    let mut i: usize = 0;
    while i < v.len()
        invariant
            i <= v@.len(),
            out@ == start + all_bytes(v@.subrange(0, i as int)),
        decreases v@.len() - i,
    {
        assert(v@.subrange(0, i + 1).drop_last() =~= v@.subrange(0, i as int));
        push_bytes(out, v[i].as_str());
        assert(out@ =~= start + all_bytes(v@.subrange(0, i + 1)));
        i += 1;
    }
    assert(v@.subrange(0, v@.len() as int) =~= v@);
}

fn push_binding_bytes(out: &mut Vec<u8>, b: &Option<ModelBinding>)
    ensures
        final(out)@ == old(out)@ + binding_bytes(*b),
{
    let ghost start = out@;
    match b {
        Some(b) => {
            push_opt_bytes(out, &b.provider_id);
            push_opt_bytes(out, &b.endpoint);
            push_opt_bytes(out, &b.model);
            let ghost mid = out@;
            let mut i: usize = 0;
            while i < b.parameters.len()
                invariant
                    i <= b.parameters@.len(),
                    out@ == mid + param_bytes(b.parameters@.subrange(0, i as int)),
                decreases b.parameters@.len() - i,
            {
                assert(b.parameters@.subrange(0, i + 1).drop_last() =~= b.parameters@.subrange(
                    0,
                    i as int,
                ));
                push_bytes(out, b.parameters[i].0.as_str());
                push_bytes(out, b.parameters[i].1.as_str());
                assert(out@ =~= mid + param_bytes(b.parameters@.subrange(0, i + 1)));
                i += 1;
            }
            assert(b.parameters@.subrange(0, b.parameters@.len() as int) =~= b.parameters@);
            assert(out@ =~= start + binding_bytes(Some(*b)));
        },
        None => {
            assert(out@ =~= start + Seq::<u8>::empty());
        },
    }
}

/// The content digest of a definition.
pub fn content_hash(m: &SubagentMetadata, instructions: &str) -> (r: String)
    ensures
        r@ == sha1_hex(digest_input(*m, instructions@)),
{
    let mut data: Vec<u8> = Vec::new();
    push_bytes(&mut data, m.name.as_str());
    push_bytes(&mut data, instructions);
    push_opt_bytes(&mut data, &m.model);
    push_binding_bytes(&mut data, &m.model_config);
    push_all_bytes(&mut data, &m.tools);
    push_all_bytes(&mut data, &m.keywords);
    assert(data@ =~= digest_input(*m, instructions@));
    sha1_digest_hex(&data)
}

// ---------------------------------------------------------------------------
// Builder
// ---------------------------------------------------------------------------

/// Collects the fields of a definition, then validates them all at once.
#[derive(Debug)]
pub struct SubagentBuilder {
    pub name: Option<String>,
    pub description: Option<String>,
    pub model: Option<String>,
    pub model_config: Option<ModelBinding>,
    pub tools: Vec<String>,
    pub keywords: Vec<String>,
    pub instructions: Option<String>,
    pub source: AgentSource,
    pub source_path: Option<String>,
}

/// The model binding after the plain `model` is folded into it.
pub open spec fn binding_ok(model: Option<String>, config: Option<ModelBinding>, r: Option<
    ModelBinding,
>) -> bool {
    match config {
        Some(b) => match r {
            Some(rb) => {
                &&& rb.provider_id == b.provider_id
                &&& rb.endpoint == b.endpoint
                &&& rb.parameters == b.parameters
                &&& rb.model == if b.model is None {
                    model
                } else {
                    b.model
                }
            },
            None => false,
        },
        None => match model {
            Some(m) => match r {
                Some(rb) => {
                    &&& rb.provider_id is None
                    &&& rb.endpoint is None
                    &&& rb.model == Some(m)
                    &&& rb.parameters@.len() == 0
                },
                None => false,
            },
            None => r is None,
        },
    }
}

/// The model shown for a definition: the plain one, else the binding's.
pub open spec fn display_model(model: Option<String>, binding: Option<ModelBinding>) -> Option<
    String,
> {
    match model {
        Some(m) => Some(m),
        None => match binding {
            Some(b) => b.model,
            None => None,
        },
    }
}

/// What `build` yields for the builder `b`, once every check passed.
pub open spec fn built_ok(b: SubagentBuilder, s: SubagentSpec) -> bool {
    &&& Some(s.metadata.name) == b.name
    &&& s.metadata.description == b.description
    &&& binding_ok(b.model, b.model_config, s.metadata.model_config)
    &&& s.metadata.model == display_model(b.model, s.metadata.model_config)
    &&& s.metadata.tools@.map_values(|t: String| t@) == trimmed_all(b.tools@)
    &&& s.metadata.keywords@.map_values(|t: String| t@) == trimmed_all(b.keywords@)
    &&& Some(s.instructions) == b.instructions
    &&& s.source == b.source
    &&& s.source_path == b.source_path
    &&& s.hash@ == sha1_hex(digest_input(s.metadata, s.instructions@))
}

pub open spec fn list_ok(items: Seq<String>) -> bool {
    forall|i: int| 0 <= i < items.len() ==> !bad_entry(trimmed_all(items), i)
}

pub open spec fn list_fails_with(items: Seq<String>, keywords: bool, e: SubagentValidationError) -> bool {
    exists|i: int| first_bad_entry(trimmed_all(items), i) && list_error_ok(trimmed_all(items), i, keywords, e)
}

/// The error that `build` reports, checks taken in order: name present, name valid,
/// instructions present and not blank, tools, keywords.
pub open spec fn build_error_ok(b: SubagentBuilder, e: SubagentValidationError) -> bool {
    match b.name {
        None => e == SubagentValidationError::MissingField("name"),
        Some(n) => if !valid_agent_name(n@) {
            match e {
                SubagentValidationError::InvalidName { name, reason } => name@ == n@ && reason@ == name_rule(),
                _ => false,
            }
        } else if b.instructions is None || trim(b.instructions.unwrap()@).len() == 0 {
            e == SubagentValidationError::MissingField("instructions")
        } else if !list_ok(b.tools@) {
            list_fails_with(b.tools@, false, e)
        } else {
            list_fails_with(b.keywords@, true, e)
        },
    }
}

/// Every check of `build` passes.
pub open spec fn buildable(b: SubagentBuilder) -> bool {
    &&& b.name is Some
    &&& valid_agent_name(b.name.unwrap()@)
    &&& b.instructions is Some
    &&& trim(b.instructions.unwrap()@).len() > 0
    &&& list_ok(b.tools@)
    &&& list_ok(b.keywords@)
}

impl SubagentBuilder {
    pub fn new(name: &str) -> (r: Self)
        ensures
            opt_str(r.name) == Some(name@),
            r.description is None,
            r.model is None,
            r.model_config is None,
            r.tools@.len() == 0,
            r.keywords@.len() == 0,
            r.instructions is None,
            r.source == AgentSource::Inline,
            r.source_path is None,
    {
        SubagentBuilder {
            name: Some(String::from_str(name)),
            description: None,
            model: None,
            model_config: None,
            tools: Vec::new(),
            keywords: Vec::new(),
            instructions: None,
            source: AgentSource::Inline,
            source_path: None,
        }
    }

    pub fn description(self, description: Option<String>) -> (r: Self)
        ensures
            r == (SubagentBuilder { description, ..self }),
    {
        SubagentBuilder { description, ..self }
    }

    pub fn model(self, model: Option<String>) -> (r: Self)
        ensures
            r == (SubagentBuilder { model, ..self }),
    {
        SubagentBuilder { model, ..self }
    }

    pub fn model_config(self, model_config: Option<ModelBinding>) -> (r: Self)
        ensures
            r == (SubagentBuilder { model_config, ..self }),
    {
        SubagentBuilder { model_config, ..self }
    }

    pub fn tools(self, tools: Vec<String>) -> (r: Self)
        ensures
            r == (SubagentBuilder { tools, ..self }),
    {
        SubagentBuilder { tools, ..self }
    }

    pub fn keywords(self, keywords: Vec<String>) -> (r: Self)
        ensures
            r == (SubagentBuilder { keywords, ..self }),
    {
        SubagentBuilder { keywords, ..self }
    }

    pub fn instructions(self, instructions: &str) -> (r: Self)
        ensures
            r.name == self.name && r.description == self.description && r.model == self.model
                && r.model_config == self.model_config && r.tools == self.tools && r.keywords
                == self.keywords && r.source == self.source && r.source_path == self.source_path,
            opt_str(r.instructions) == Some(instructions@),
    {
        SubagentBuilder { instructions: Some(String::from_str(instructions)), ..self }
    }

    pub fn source(self, source: AgentSource) -> (r: Self)
        ensures
            r == (SubagentBuilder { source, ..self }),
    {
        SubagentBuilder { source, ..self }
    }

    pub fn source_path(self, path: &str) -> (r: Self)
        ensures
            r.name == self.name && r.description == self.description && r.model == self.model
                && r.model_config == self.model_config && r.tools == self.tools && r.keywords
                == self.keywords && r.source == self.source && r.instructions == self.instructions,
            opt_str(r.source_path) == Some(path@),
    {
        SubagentBuilder { source_path: Some(String::from_str(path)), ..self }
    }

    /// Validates the collected fields and builds the definition with its content digest.
    pub fn build(self) -> (r: Result<SubagentSpec, SubagentValidationError>)
        ensures
            r is Ok <==> buildable(self),
            match r {
                Ok(s) => built_ok(self, s),
                Err(e) => build_error_ok(self, e),
            },
    {
        let ghost b = self;
        let name = match self.name {
            Some(n) => n,
            None => {
                return Err(SubagentValidationError::MissingField("name"));
            },
        };
        match validate_agent_name(name.as_str()) {
            Ok(()) => {},
            Err(e) => {
                return Err(e);
            },
        }
        let instructions = match self.instructions {
            Some(i) => i,
            None => {
                return Err(SubagentValidationError::MissingField("instructions"));
            },
        };
        let body = trim_string(instructions.as_str());
        if body.unicode_len() == 0 {
            return Err(SubagentValidationError::MissingField("instructions"));
        }
        let tools = match normalize_unique(self.tools, false) {
            Ok(t) => t,
            Err(e) => {
                return Err(e);
            },
        };
        let keywords = match normalize_unique(self.keywords, true) {
            Ok(k) => k,
            Err(e) => {
                proof {
                    assert(list_ok(b.tools@));
                }
                return Err(e);
            },
        };
        let model_config = match self.model_config {
            Some(binding) => {
                if binding.model.is_none() {
                    Some(ModelBinding { model: copy_opt(&self.model), ..binding })
                } else {
                    Some(binding)
                }
            },
            None => match &self.model {
                Some(m) => Some(
                    ModelBinding {
                        provider_id: None,
                        model: Some(m.clone()),
                        endpoint: None,
                        parameters: Vec::new(),
                    },
                ),
                None => None,
            },
        };
        let shown = match &self.model {
            Some(m) => Some(m.clone()),
            None => match &model_config {
                Some(binding) => copy_opt(&binding.model),
                None => None,
            },
        };
        let metadata = SubagentMetadata {
            name,
            description: self.description,
            model: shown,
            model_config,
            tools,
            keywords,
        };
        let hash = content_hash(&metadata, instructions.as_str());
        Ok(
            SubagentSpec {
                metadata,
                instructions,
                source_path: self.source_path,
                source: self.source,
                hash,
            },
        )
    }
}

} // verus!
