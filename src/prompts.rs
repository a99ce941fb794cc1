use vstd::prelude::*;
use vstd::string::StringExecFns;
use crate::router::join;
use crate::spec::SubagentSpec;
use crate::text::{chars_of, push_chars, push_text};

verus! {

// ---------------------------------------------------------------------------
// Replacing placeholders
// ---------------------------------------------------------------------------

/// `s` with every occurrence of `pat` replaced by `rep`, left to right, without overlap.
pub open spec fn replace_all(s: Seq<char>, pat: Seq<char>, rep: Seq<char>) -> Seq<char>
    decreases s.len(),
{
    if s.len() == 0 || pat.len() == 0 {
        s
    } else if pat.len() <= s.len() && s.subrange(0, pat.len() as int) == pat {
        rep + replace_all(s.subrange(pat.len() as int, s.len() as int), pat, rep)
    } else {
        seq![s[0]] + replace_all(s.subrange(1, s.len() as int), pat, rep)
    }
}

fn matches_at(v: &Vec<char>, i: usize, p: &Vec<char>) -> (r: bool)
    requires
        i <= v@.len(),
    ensures
        r == (p@.len() <= v@.len() - i && v@.subrange(i as int, i + p@.len()) == p@),
{
    if p.len() > v.len() - i {
        return false;
    }
    let mut k: usize = 0;
    while k < p.len()
        invariant
            p@.len() <= v@.len() - i,
            k <= p@.len(),
            forall|m: int| 0 <= m < k ==> v@[i + m] == p@[m],
        decreases p@.len() - k,
    {
        let vl = v.len();
        assert(i + k < vl);
        if v[i + k] != p[k] {
            assert(v@.subrange(i as int, i + p@.len())[k as int] != p@[k as int]);
            return false;
        }
        k += 1;
    }
    assert(v@.subrange(i as int, i + p@.len()) =~= p@);
    true
}

/// `s` with every occurrence of `pat` replaced by `rep`.
pub fn replace_text(s: &str, pat: &str, rep: &str) -> (r: String)
    ensures
        r@ == replace_all(s@, pat@, rep@),
{
    let v = chars_of(s);
    let p = chars_of(pat);
    let rv = chars_of(rep);
    let mut out = String::new();
    if p.len() == 0 {
        push_chars(&mut out, &v);
        assert(out@ =~= s@);
        return out;
    }
    let mut i: usize = 0;
    assert(v@.subrange(0, v@.len() as int) =~= v@);
    while i < v.len()
        invariant
            v@ == s@,
            p@ == pat@,
            rv@ == rep@,
            p@.len() > 0,
            i <= v@.len(),
            out@ + replace_all(v@.subrange(i as int, v@.len() as int), p@, rv@) == replace_all(s@, pat@, rep@),
        decreases v@.len() - i,
    {
        let ghost rest = v@.subrange(i as int, v@.len() as int);
        if matches_at(&v, i, &p) {
            assert(rest.subrange(0, p@.len() as int) =~= v@.subrange(i as int, i + p@.len()));
            assert(rest.subrange(p@.len() as int, rest.len() as int) =~= v@.subrange(i + p@.len(), v@.len() as int));
            push_chars(&mut out, &rv);
            i += p.len();
        } else {
            assert(p@.len() <= rest.len() ==> rest.subrange(0, p@.len() as int) =~= v@.subrange(i as int, i + p@.len()));
            assert(rest.subrange(1, rest.len() as int) =~= v@.subrange(i + 1, v@.len() as int));
            crate::text::push_char(&mut out, v[i]);
            assert(seq![v@[i as int]] + replace_all(v@.subrange(i + 1, v@.len() as int), p@, rv@) == replace_all(rest, p@, rv@));
            i += 1;
        }
    }
    assert(v@.subrange(v@.len() as int, v@.len() as int) =~= Seq::<char>::empty());
    assert(out@ + Seq::<char>::empty() =~= out@);
    out
}

// ---------------------------------------------------------------------------
// Requirements prompts
// ---------------------------------------------------------------------------

/// What the requirements parser is asked to work on.
#[derive(Debug, Clone)]
pub struct SpecParserRequest {
    pub requirements_text: String,
    pub codebase_context: Option<String>,
    pub related_files: Vec<String>,
    pub metadata: Vec<(String, String)>,
}

/// The parts of the prompt sent to the requirements parser.
#[derive(Debug, Clone)]
pub struct SpecParserPromptTemplate {
    pub system_prompt: String,
    pub user_prompt_template: String,
    pub output_schema: String,
}

pub open spec fn closing_line() -> Seq<char> {
    "Please provide your response in the specified JSON format."@
}

pub open spec fn no_context() -> Seq<char> {
    "No additional context provided"@
}

/// The user prompt with its three placeholders filled in.
pub open spec fn user_prompt(t: SpecParserPromptTemplate, req: SpecParserRequest) -> Seq<char> {
    replace_all(
        replace_all(
            replace_all(t.user_prompt_template@, "{requirements_text}"@, req.requirements_text@),
            "{codebase_context}"@,
            match req.codebase_context {
                Some(c) => c@,
                None => no_context(),
            },
        ),
        "{related_files}"@,
        join(req.related_files@.map_values(|f: String| f@)),
    )
}

impl SpecParserPromptTemplate {
    /// The complete prompt: system prompt, output schema, filled-in user prompt and the
    /// closing request, separated by blank lines.
    pub fn render(&self, request: &SpecParserRequest) -> (r: String)
        ensures
            r@ == self.system_prompt@ + "\n\n"@ + self.output_schema@ + "\n\n"@ + user_prompt(
                *self,
                *request,
            ) + "\n\n"@ + closing_line(),
    {
        let step1 = replace_text(
            self.user_prompt_template.as_str(),
            "{requirements_text}",
            request.requirements_text.as_str(),
        );
        let context = match &request.codebase_context {
            Some(c) => c.clone(),
            None => String::from_str("No additional context provided"),
        };
        let step2 = replace_text(step1.as_str(), "{codebase_context}", context.as_str());
        let mut files = String::new();
        let mut k: usize = 0;
        while k < request.related_files.len()
            invariant
                k <= request.related_files@.len(),
                files@ == join(request.related_files@.subrange(0, k as int).map_values(|f: String| f@)),
            decreases request.related_files@.len() - k,
        {
            let ghost parts = request.related_files@.subrange(0, k as int).map_values(|f: String| f@);
            crate::router::push_part(&mut files, &request.related_files[k], k, Ghost(parts));
            assert(parts.push(request.related_files@[k as int]@) =~= request.related_files@.subrange(0, k + 1).map_values(|f: String| f@));
            k += 1;
        }
        assert(request.related_files@.subrange(0, request.related_files@.len() as int) =~= request.related_files@);
        let step3 = replace_text(step2.as_str(), "{related_files}", files.as_str());
        let mut r = self.system_prompt.clone();
        push_text(&mut r, "\n\n");
        push_text(&mut r, self.output_schema.as_str());
        push_text(&mut r, "\n\n");
        push_text(&mut r, step3.as_str());
        push_text(&mut r, "\n\n");
        push_text(&mut r, "Please provide your response in the specified JSON format.");
        r
    }
}

impl Default for SpecParserPromptTemplate {
    fn default() -> (r: Self)
        ensures
            r.user_prompt_template@ == default_user_prompt(),
    {
        SpecParserPromptTemplate {
            system_prompt: String::from_str(
                "You are a requirements analysis expert specializing in converting natural language requirements into structured, testable specifications. Your role is to parse user requirements and extract:\n\n1. Clear, actionable acceptance criteria\n2. Priority levels for each criterion\n3. Testability indicators\n4. Structured metadata\n\nFocus on precision, completeness, and testability in your analysis.",
            ),
            user_prompt_template: String::from_str(
                "Please analyze the following requirements and convert them into a structured specification:\n\n**Requirements Text:**\n{requirements_text}\n\n**Codebase Context:**\n{codebase_context}\n\n**Related Files:**\n{related_files}\n\nExtract clear acceptance criteria, assign appropriate priorities (High/Medium/Low), and identify which criteria are testable. Provide a comprehensive analysis that maintains the original intent while adding structure.",
            ),
            output_schema: String::from_str(
                "**Expected Output Format (JSON):**\n```json\n{\n  \"title\": \"Brief, descriptive title for the requirements\",\n  \"description\": \"Detailed description of the requirements\",\n  \"acceptance_criteria\": [\n    {\n      \"id\": \"ac-1\",\n      \"description\": \"Clear, actionable criterion description\",\n      \"priority\": \"High|Medium|Low\",\n      \"testable\": true|false,\n      \"test_scenario\": \"Optional BDD-style test scenario\"\n    }\n  ],\n  \"constraints\": [\"Any technical or business constraints\"],\n  \"metadata\": {\n    \"complexity\": \"Low|Medium|High\",\n    \"estimated_effort\": \"description\"\n  }\n}\n```",
            ),
        }
    }
}

pub open spec fn default_user_prompt() -> Seq<char> {
    "Please analyze the following requirements and convert them into a structured specification:\n\n**Requirements Text:**\n{requirements_text}\n\n**Codebase Context:**\n{codebase_context}\n\n**Related Files:**\n{related_files}\n\nExtract clear acceptance criteria, assign appropriate priorities (High/Medium/Low), and identify which criteria are testable. Provide a comprehensive analysis that maintains the original intent while adding structure."@
}

/// The subagent that turns a brief into structured requirements.
#[derive(Debug)]
pub struct SpecParserSubagent {
    pub spec: SubagentSpec,
    pub prompt_template: SpecParserPromptTemplate,
}

impl SpecParserSubagent {
    pub fn new(spec: SubagentSpec) -> (r: Self)
        ensures
            r.spec == spec,
            r.prompt_template.user_prompt_template@ == default_user_prompt(),
    {
        SpecParserSubagent { spec, prompt_template: SpecParserPromptTemplate::default() }
    }

    pub fn with_template(spec: SubagentSpec, template: SpecParserPromptTemplate) -> (r: Self)
        ensures
            r.spec == spec,
            r.prompt_template == template,
    {
        SpecParserSubagent { spec, prompt_template: template }
    }
}

// ---------------------------------------------------------------------------
// Test commands
// ---------------------------------------------------------------------------

/// Index just past the last `/` of `s` among its first `n` characters, or 0.
pub open spec fn name_start(s: Seq<char>, n: int) -> int
    decreases n,
{
    if n <= 0 {
        0
    } else if s[n - 1] == '/' {
        n
    } else {
        name_start(s, n - 1)
    }
}

/// Index of the last `.` among characters `from..n` of `s`, or -1.
pub open spec fn last_dot(s: Seq<char>, from: int, n: int) -> int
    decreases n - from,
{
    if n <= from {
        -1
    } else if s[n - 1] == '.' {
        n - 1
    } else {
        last_dot(s, from, n - 1)
    }
}

/// The extension of a path: what follows the last `.` of its file name, where that dot is
/// not the name's first character.
pub open spec fn extension_of(path: Seq<char>) -> Option<Seq<char>> {
    let start = name_start(path, path.len() as int);
    let dot = last_dot(path, start, path.len() as int);
    if dot > start {
        Some(path.subrange(dot + 1, path.len() as int))
    } else {
        None
    }
}

/// The command that runs the tests for a file of this extension.
pub open spec fn command_for(ext: Seq<char>) -> Seq<char> {
    if ext == "rs"@ {
        "cargo test"@
    } else if ext == "js"@ || ext == "ts"@ {
        "npm test"@
    } else if ext == "py"@ {
        "python -m pytest"@
    } else if ext == "go"@ {
        "go test"@
    } else {
        "echo 'No test command available'"@
    }
}

/// Derives test commands from file paths.
#[derive(Debug, Clone, Copy)]
pub struct TestGenerator;

impl TestGenerator {
    pub fn new() -> (r: Self) {
        TestGenerator
    }

    /// The test command for a file, chosen by its extension; none for a file without one.
    pub fn generate_test_command(&self, file_path: &str) -> (r: Option<String>)
        ensures
            match extension_of(file_path@) {
                Some(ext) => r is Some && r.unwrap()@ == command_for(ext),
                None => r is None,
            },
    {
        let v = chars_of(file_path);
        let n = v.len();
        let mut start = n;
        while start > 0 && v[start - 1] != '/'
            invariant
                start <= n,
                n == v@.len(),
                name_start(v@, n as int) == name_start(v@, start as int),
            decreases start,
        {
            start -= 1;
        }
        let mut dot = n;
        while dot > start && v[dot - 1] != '.'
            invariant
                start <= dot <= n,
                n == v@.len(),
                last_dot(v@, start as int, n as int) == last_dot(v@, start as int, dot as int),
            decreases dot,
        {
            dot -= 1;
        }
        // the dot sits at index dot - 1
        if dot - start <= 1 {
            return None;
        }
        let ext = crate::text::string_of(&v, dot, n);
        let e = chars_of(ext.as_str());
        let cmd = if vec_is(&e, "rs") {
            "cargo test"
        } else if vec_is(&e, "js") || vec_is(&e, "ts") {
            "npm test"
        } else if vec_is(&e, "py") {
            "python -m pytest"
        } else if vec_is(&e, "go") {
            "go test"
        } else {
            "echo 'No test command available'"
        };
        Some(String::from_str(cmd))
    }
}

fn vec_is(v: &Vec<char>, s: &str) -> (r: bool)
    ensures
        r == (v@ == s@),
{
    let w = chars_of(s);
    if v.len() != w.len() {
        return false;
    }
    let mut i: usize = 0;
    while i < v.len()
        invariant
            v@.len() == w@.len(),
            w@ == s@,
            i <= v@.len(),
            forall|k: int| 0 <= k < i ==> v@[k] == w@[k],
        decreases v@.len() - i,
    {
        if v[i] != w[i] {
            return false;
        }
        i += 1;
    }
    assert(v@ =~= w@);
    true
}

/// The subagent that plans and runs tests.
#[derive(Debug)]
pub struct TesterSubagent {
    pub spec: SubagentSpec,
    pub generator: TestGenerator,
}

impl TesterSubagent {
    pub fn new(spec: SubagentSpec) -> (r: Self)
        ensures
            r.spec == spec,
    {
        TesterSubagent { spec, generator: TestGenerator::new() }
    }

    pub fn name(&self) -> (r: &str)
        ensures
            r@ == self.spec.metadata.name@,
    {
        self.spec.metadata.name.as_str()
    }
}

} // verus!
