use vstd::prelude::*;
use vstd::string::StringExecFns;
use crate::spec::AgentSource;
use crate::text::{chars_of, push_text, same_text, trim, trim_string};

verus! {

// ---------------------------------------------------------------------------
// List cleaning
// ---------------------------------------------------------------------------

/// The first `n` entries trimmed, blanks dropped, repeats dropped, first occurrence kept.
pub open spec fn cleaned(items: Seq<String>, n: int) -> Seq<Seq<char>>
    decreases n,
{
    if n <= 0 {
        Seq::empty()
    } else {
        let prev = cleaned(items, n - 1);
        let t = trim(items[n - 1]@);
        if t.len() == 0 || prev.contains(t) {
            prev
        } else {
            prev.push(t)
        }
    }
}

/// Every cleaned entry is some entry trimmed.
pub proof fn lemma_cleaned_elems(items: Seq<String>, n: int)
    ensures
        forall|i: int| 0 <= i < cleaned(items, n).len() ==> exists|s: Seq<char>| #[trigger] cleaned(items, n)[i] == trim(s),
    decreases n,
{
    if n > 0 {
        lemma_cleaned_elems(items, n - 1);
        let prev = cleaned(items, n - 1);
        assert forall|i: int| 0 <= i < cleaned(items, n).len() implies exists|s: Seq<char>| #[trigger] cleaned(items, n)[i] == trim(s) by {
            if i < prev.len() {
                assert(cleaned(items, n)[i] == prev[i]);
                let s = choose|s: Seq<char>| prev[i] == trim(s);
                assert(cleaned(items, n)[i] == trim(s));
            } else {
                assert(cleaned(items, n)[i] == trim(items[n - 1]@));
            }
        }
    }
}

/// Cleaned entries are not blank and appear once each.
pub proof fn lemma_cleaned_distinct(items: Seq<String>, n: int)
    ensures
        forall|i: int| 0 <= i < cleaned(items, n).len() ==> (#[trigger] cleaned(items, n)[i]).len() > 0,
        forall|i: int, k: int|
            #![trigger cleaned(items, n)[k], cleaned(items, n)[i]]
            0 <= k < i < cleaned(items, n).len() ==> cleaned(items, n)[k] != cleaned(items, n)[i],
    decreases n,
{
    if n > 0 {
        lemma_cleaned_distinct(items, n - 1);
        let prev = cleaned(items, n - 1);
        let t = trim(items[n - 1]@);
        if !(t.len() == 0 || prev.contains(t)) {
            let c = prev.push(t);
            assert forall|i: int, k: int| #![trigger c[k], c[i]] 0 <= k < i < c.len() implies c[k] != c[i] by {
                if i == prev.len() {
                    assert(c[k] == prev[k]);
                    if c[k] == t {
                        assert(prev.contains(t));
                    }
                }
            }
        }
    }
}

/// Trims every entry, drops blank ones, and keeps the first of repeated ones.
pub fn clean_list(values: Vec<String>) -> (r: Vec<String>)
    ensures
        r@.map_values(|s: String| s@) == cleaned(values@, values@.len() as int),
{
    let mut out: Vec<String> = Vec::new();
    let mut i: usize = 0;
    while i < values.len()
        invariant
            i <= values@.len(),
            out@.map_values(|s: String| s@) == cleaned(values@, i as int),
        decreases values@.len() - i,
    {
        let t = trim_string(values[i].as_str());
        let ghost prev = out@.map_values(|s: String| s@);
        if t.as_str().unicode_len() > 0 {
            let mut seen = false;
            let mut k: usize = 0;
            while k < out.len()
                invariant
                    k <= out@.len(),
                    prev == out@.map_values(|s: String| s@),
                    seen == exists|m: int| 0 <= m < k && prev[m] == t@,
                decreases out@.len() - k,
            {
                assert(prev[k as int] == out@[k as int]@);
                if same_text(out[k].as_str(), t.as_str()) {
                    seen = true;
                }
                k += 1;
            }
            proof {
                if seen {
                    let m = choose|m: int| 0 <= m < out@.len() && prev[m] == t@;
                    assert(prev.contains(t@));
                } else {
                    assert(!prev.contains(t@));
                }
            }
            if !seen {
                out.push(t);
                assert(out@.map_values(|s: String| s@) =~= prev.push(out@.last()@));
            }
        }
        i += 1;
    }
    out
}

// ---------------------------------------------------------------------------
// Agent definitions of the command line tool
// ---------------------------------------------------------------------------

/// A subagent definition as the command line tool keeps it.
#[derive(Debug, Clone, PartialEq, Eq)]
pub struct AgentSpec {
    pub name: String,
    pub description: Option<String>,
    pub model: Option<String>,
    pub tools: Vec<String>,
    pub keywords: Vec<String>,
    pub instructions: String,
    pub source_path: Option<String>,
    pub source: AgentSource,
}

/// Why a definition of the command line tool is not valid.
#[derive(Debug, Clone, Copy, PartialEq, Eq, Structural)]
pub enum AgentSpecError {
    EmptyName,
    InvalidName,
    EmptyInstructions,
}

impl AgentSpecError {
    pub fn message(&self) -> (r: &'static str)
        ensures
            *self == AgentSpecError::EmptyName ==> r@ == "Agent name cannot be empty"@,
            *self == AgentSpecError::InvalidName ==> r@
                == "Agent name must start with a lowercase letter, include only lowercase letters, digits, hyphen, or underscore, and be 3-64 characters long"@,
            *self == AgentSpecError::EmptyInstructions ==> r@ == "Agent instructions cannot be empty"@,
    {
        match self {
            AgentSpecError::EmptyName => "Agent name cannot be empty",
            AgentSpecError::InvalidName => "Agent name must start with a lowercase letter, include only lowercase letters, digits, hyphen, or underscore, and be 3-64 characters long",
            AgentSpecError::EmptyInstructions => "Agent instructions cannot be empty",
        }
    }
}

pub open spec fn markdown_list(items: Seq<String>, n: int) -> Seq<char>
    decreases n,
{
    if n <= 0 {
        Seq::empty()
    } else {
        markdown_list(items, n - 1) + "  - "@ + items[n - 1]@ + "\n"@
    }
}

pub open spec fn field_line(key: Seq<char>, value: Option<String>) -> Seq<char> {
    match value {
        Some(v) => key + v@ + "\n"@,
        None => Seq::empty(),
    }
}

pub open spec fn list_block(head: Seq<char>, items: Seq<String>) -> Seq<char> {
    if items.len() > 0 {
        head + markdown_list(items, items.len() as int)
    } else {
        Seq::empty()
    }
}

/// The definition written back as a document: front matter, blank line, instructions.
pub open spec fn markdown_of(a: AgentSpec) -> Seq<char> {
    "---\nname: "@ + a.name@ + "\n"@ + field_line("description: "@, a.description) + field_line(
        "model: "@,
        a.model,
    ) + list_block("tools:\n"@, a.tools@) + list_block("keywords:\n"@, a.keywords@) + "---\n\n"@
        + a.instructions@
}

fn push_field(out: &mut String, key: &str, value: &Option<String>)
    ensures
        final(out)@ == old(out)@ + field_line(key@, *value),
{
    match value {
        Some(v) => {
            let ghost start = out@;
            push_text(out, key);
            push_text(out, v.as_str());
            push_text(out, "\n");
            assert(out@ =~= start + (key@ + v@ + "\n"@));
        },
        None => {
            assert(out@ =~= out@ + Seq::<char>::empty());
        },
    }
}

fn push_block(out: &mut String, head: &str, items: &Vec<String>)
    ensures
        final(out)@ == old(out)@ + list_block(head@, items@),
{
    let ghost start = out@;
    if items.len() > 0 {
        push_text(out, head);
        push_list(out, items);
        assert(out@ =~= start + (head@ + markdown_list(items@, items@.len() as int)));
    } else {
        assert(out@ =~= start + Seq::<char>::empty());
    }
}

fn push_list(out: &mut String, items: &Vec<String>)
    ensures
        final(out)@ == old(out)@ + markdown_list(items@, items@.len() as int),
{
    let ghost start = out@;
    let mut i: usize = 0;
    while i < items.len()
        invariant
            i <= items@.len(),
            out@ == start + markdown_list(items@, i as int),
        decreases items@.len() - i,
    {
        push_text(out, "  - ");
        push_text(out, items[i].as_str());
        push_text(out, "\n");
        assert(out@ =~= start + markdown_list(items@, i + 1));
        i += 1;
    }
}

impl AgentSpec {
    pub fn new(name: &str, instructions: &str) -> (r: Self)
        ensures
            r.name@ == name@,
            r.instructions@ == instructions@,
            r.description is None,
            r.model is None,
            r.tools@.len() == 0,
            r.keywords@.len() == 0,
            r.source_path is None,
            r.source == AgentSource::User,
    {
        AgentSpec {
            name: String::from_str(name),
            description: None,
            model: None,
            tools: Vec::new(),
            keywords: Vec::new(),
            instructions: String::from_str(instructions),
            source_path: None,
            source: AgentSource::User,
        }
    }

    pub fn name(&self) -> (r: &str)
        ensures
            r@ == self.name@,
    {
        self.name.as_str()
    }

    pub fn description(&self) -> (r: Option<&String>)
        ensures
            match r {
                Some(d) => self.description == Some(*d),
                None => self.description is None,
            },
    {
        match &self.description {
            Some(d) => Some(d),
            None => None,
        }
    }

    pub fn model(&self) -> (r: Option<&String>)
        ensures
            match r {
                Some(m) => self.model == Some(*m),
                None => self.model is None,
            },
    {
        match &self.model {
            Some(m) => Some(m),
            None => None,
        }
    }

    pub fn tools(&self) -> (r: &Vec<String>)
        ensures
            r == &self.tools,
    {
        &self.tools
    }

    pub fn keywords(&self) -> (r: &Vec<String>)
        ensures
            r == &self.keywords,
    {
        &self.keywords
    }

    pub fn instructions(&self) -> (r: &str)
        ensures
            r@ == self.instructions@,
    {
        self.instructions.as_str()
    }

    pub fn source_path(&self) -> (r: Option<&String>)
        ensures
            match r {
                Some(p) => self.source_path == Some(*p),
                None => self.source_path is None,
            },
    {
        match &self.source_path {
            Some(p) => Some(p),
            None => None,
        }
    }

    /// The name must follow the grammar of agent names and the instructions must not be
    /// blank; the first failing check gives the error.
    pub fn validate(&self) -> (r: Result<(), AgentSpecError>)
        ensures
            r is Ok <==> crate::spec::valid_agent_name(self.name@) && trim(self.instructions@).len() > 0,
            self.name@.len() == 0 ==> r == Err::<(), AgentSpecError>(AgentSpecError::EmptyName),
            self.name@.len() > 0 && !crate::spec::valid_agent_name(self.name@)
                ==> r == Err::<(), AgentSpecError>(AgentSpecError::InvalidName),
            crate::spec::valid_agent_name(self.name@) && trim(self.instructions@).len() == 0
                ==> r == Err::<(), AgentSpecError>(AgentSpecError::EmptyInstructions),
    {
        if self.name.as_str().unicode_len() == 0 {
            return Err(AgentSpecError::EmptyName);
        }
        match crate::spec::validate_agent_name(self.name.as_str()) {
            Ok(()) => {},
            Err(_) => {
                return Err(AgentSpecError::InvalidName);
            },
        }
        let t = trim_string(self.instructions.as_str());
        if t.as_str().unicode_len() == 0 {
            return Err(AgentSpecError::EmptyInstructions);
        }
        Ok(())
    }

    /// The definition as a document.
    pub fn to_markdown(&self) -> (r: String)
        ensures
            r@ == markdown_of(*self),
    {
        let mut yaml = String::from_str("---\nname: ");
        push_text(&mut yaml, self.name.as_str());
        push_text(&mut yaml, "\n");
        push_field(&mut yaml, "description: ", &self.description);
        push_field(&mut yaml, "model: ", &self.model);
        push_block(&mut yaml, "tools:\n", &self.tools);
        push_block(&mut yaml, "keywords:\n", &self.keywords);
        push_text(&mut yaml, "---\n\n");
        push_text(&mut yaml, self.instructions.as_str());
        yaml
    }
}

} // verus!
