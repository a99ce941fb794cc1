use vstd::prelude::*;
use vstd::string::StringExecFns;
use crate::pipeline::{copy_opt, copy_strings, opt_str};
use crate::spec::{AgentSource, ModelBinding, SubagentMetadata, SubagentSpec};
use crate::text::same_text;

verus! {

/// A definition file that could not be used.
#[derive(Debug, Clone, PartialEq, Eq)]
pub struct SubagentRegistryError {
    pub path: String,
    pub message: String,
}

impl SubagentRegistryError {
    pub fn new(path: &str, message: &str) -> (r: Self)
        ensures
            r.path@ == path@,
            r.message@ == message@,
    {
        SubagentRegistryError { path: String::from_str(path), message: String::from_str(message) }
    }
}

/// What one reload changed.
#[derive(Debug, Clone)]
pub struct ReloadReport {
    pub loaded: Vec<String>,
    pub removed: Vec<String>,
    pub errors: Vec<SubagentRegistryError>,
}

/// A definition in effect, and the tier it came from.
#[derive(Debug, Clone)]
pub struct SubagentRecord {
    pub spec: SubagentSpec,
    pub source: AgentSource,
}

impl SubagentRecord {
    pub fn name(&self) -> (r: &str)
        ensures
            r@ == self.spec.metadata.name@,
    {
        self.spec.metadata.name.as_str()
    }
}

/// One entry of a directory scan, in scan order: a directory that could not be read, or a
/// definition file with its modification time and, when it had to be read, its parse result.
#[derive(Debug)]
pub enum ScanItem {
    DirError { dir: String, message: String },
    File {
        path: String,
        source: AgentSource,
        modified: Option<u64>,
        document: Option<Result<SubagentSpec, String>>,
    },
}

/// A parsed file kept between reloads, keyed by path.
#[derive(Debug)]
pub struct CachedDoc {
    pub path: String,
    pub source: AgentSource,
    pub modified: Option<u64>,
    pub parsed: Result<SubagentSpec, String>,
}

/// The definitions discovered under the project and user tiers.
#[derive(Debug)]
pub struct SubagentRegistry {
    pub project_dir: String,
    pub user_dir: String,
    pub cache: Vec<CachedDoc>,
    pub records: Vec<SubagentRecord>,
    pub last_errors: Vec<SubagentRegistryError>,
}

// ---------------------------------------------------------------------------
// Model
// ---------------------------------------------------------------------------

/// A definition as plain values: name, description, instructions, tools, keywords, content
/// digest, model.
pub type SpecV = (
    Seq<char>,
    Option<Seq<char>>,
    Seq<char>,
    Seq<Seq<char>>,
    Seq<Seq<char>>,
    Seq<char>,
    Option<Seq<char>>,
);

pub open spec fn spec_v(s: SubagentSpec) -> SpecV {
    (
        s.metadata.name@,
        opt_str(s.metadata.description),
        s.instructions@,
        s.metadata.tools@.map_values(|t: String| t@),
        s.metadata.keywords@.map_values(|k: String| k@),
        s.hash@,
        opt_str(s.metadata.model),
    )
}

/// A parse result as plain values: the definition, or the error text.
pub type ParsedV = Result<SpecV, Seq<char>>;

/// A cached file: path, tier, modification time, parse result.
pub type DocV = (Seq<char>, AgentSource, Option<u64>, ParsedV);

/// A record: name, tier, definition.
pub type RecV = (Seq<char>, AgentSource, SpecV);

pub type ErrV = (Seq<char>, Seq<char>);

pub open spec fn not_read() -> Seq<char> {
    "definition was not read"@
}

pub open spec fn parsed_v(p: Result<SubagentSpec, String>) -> ParsedV {
    match p {
        Ok(s) => Ok(spec_v(s)),
        Err(m) => Err(m@),
    }
}

pub open spec fn doc_v(d: CachedDoc) -> DocV {
    (d.path@, d.source, d.modified, parsed_v(d.parsed))
}

pub open spec fn rec_v(r: SubagentRecord) -> RecV {
    (r.spec.metadata.name@, r.source, spec_v(r.spec))
}

pub open spec fn err_v(e: SubagentRegistryError) -> ErrV {
    (e.path@, e.message@)
}

pub open spec fn provided(document: Option<Result<SubagentSpec, String>>) -> ParsedV {
    match document {
        Some(p) => parsed_v(p),
        None => Err(not_read()),
    }
}

/// The first cached file with `path` in tier `source` among the first `n`, or -1.
pub open spec fn find_doc(cache: Seq<DocV>, path: Seq<char>, source: AgentSource, n: int) -> int
    decreases n,
{
    if n <= 0 {
        -1
    } else if find_doc(cache, path, source, n - 1) >= 0 {
        find_doc(cache, path, source, n - 1)
    } else if cache[n - 1].0 == path && cache[n - 1].1 == source {
        n - 1
    } else {
        -1
    }
}

/// The cached file to reuse, keyed by path and tier, when its modification time is unchanged;
/// or -1.
pub open spec fn cache_hit(cache: Seq<DocV>, path: Seq<char>, source: AgentSource, modified: Option<u64>) -> int {
    let i = find_doc(cache, path, source, cache.len() as int);
    if i >= 0 && cache[i].2 == modified {
        i
    } else {
        -1
    }
}

/// The first record named `name` among the first `n`, or -1.
pub open spec fn find_rec(recs: Seq<RecV>, name: Seq<char>, n: int) -> int
    decreases n,
{
    if n <= 0 {
        -1
    } else if find_rec(recs, name, n - 1) >= 0 {
        find_rec(recs, name, n - 1)
    } else if recs[n - 1].0 == name {
        n - 1
    } else {
        -1
    }
}

/// Records `r` under its name, except that a project-tier record is never replaced by one
/// of another tier.
pub open spec fn upsert_rec(recs: Seq<RecV>, r: RecV) -> Seq<RecV> {
    let i = find_rec(recs, r.0, recs.len() as int);
    if i >= 0 {
        if recs[i].1 == AgentSource::Project && r.1 != AgentSource::Project {
            recs
        } else {
            recs.update(i, r)
        }
    } else {
        recs.push(r)
    }
}

pub open spec fn push_unique<T>(s: Seq<T>, x: T) -> Seq<T> {
    if s.contains(x) {
        s
    } else {
        s.push(x)
    }
}

/// The new cache, the records, the names read afresh, and the errors, after the first `n`
/// scan items.
pub struct RunV {
    pub cache: Seq<DocV>,
    pub records: Seq<RecV>,
    pub loaded: Seq<Seq<char>>,
    pub errors: Seq<ErrV>,
}

/// The parse result that a file item stands for: the cached one on a hit, else what was read.
pub open spec fn item_doc(old_cache: Seq<DocV>, item: ScanItem) -> ParsedV {
    match item {
        ScanItem::File { path, source, modified, document } => {
            let h = cache_hit(old_cache, path@, source, modified);
            if h >= 0 {
                old_cache[h].3
            } else {
                provided(document)
            }
        },
        ScanItem::DirError { .. } => Err(Seq::empty()),
    }
}

pub open spec fn run_step(acc: RunV, old_cache: Seq<DocV>, item: ScanItem) -> RunV {
    match item {
        ScanItem::DirError { dir, message } => RunV {
            errors: push_unique(acc.errors, (dir@, message@)),
            ..acc
        },
        ScanItem::File { path, source, modified, document } => {
            let hit = cache_hit(old_cache, path@, source, modified) >= 0;
            let d = item_doc(old_cache, item);
            RunV {
                cache: acc.cache.push((path@, source, modified, d)),
                records: match d {
                    Ok(nd) => upsert_rec(acc.records, (nd.0, source, nd)),
                    Err(_) => acc.records,
                },
                loaded: match d {
                    Ok(nd) => if hit {
                        acc.loaded
                    } else {
                        push_unique(acc.loaded, nd.0)
                    },
                    Err(_) => acc.loaded,
                },
                errors: match d {
                    Ok(_) => acc.errors,
                    Err(m) => push_unique(acc.errors, (path@, m)),
                },
            }
        },
    }
}

pub open spec fn run_prefix(old_cache: Seq<DocV>, scan: Seq<ScanItem>, n: int) -> RunV
    decreases n,
{
    if n <= 0 {
        RunV { cache: Seq::empty(), records: Seq::empty(), loaded: Seq::empty(), errors: Seq::empty() }
    } else {
        run_step(run_prefix(old_cache, scan, n - 1), old_cache, scan[n - 1])
    }
}

/// Names among the first `n` old records that no new record has, in the old order.
pub open spec fn removed_names(old: Seq<RecV>, new: Seq<RecV>, n: int) -> Seq<Seq<char>>
    decreases n,
{
    if n <= 0 {
        Seq::empty()
    } else {
        removed_names(old, new, n - 1) + if find_rec(new, old[n - 1].0, new.len() as int) < 0 {
            seq![old[n - 1].0]
        } else {
            Seq::empty()
        }
    }
}

/// A reload's outcome: the cache and records after it, and its report (loaded, removed,
/// errors).
pub open spec fn reload_spec(old_cache: Seq<DocV>, old_records: Seq<RecV>, scan: Seq<ScanItem>) -> (
    Seq<DocV>,
    Seq<RecV>,
    Seq<Seq<char>>,
    Seq<Seq<char>>,
    Seq<ErrV>,
) {
    let run = run_prefix(old_cache, scan, scan.len() as int);
    (
        run.cache,
        run.records,
        run.loaded,
        removed_names(old_records, run.records, old_records.len() as int),
        run.errors,
    )
}

// ---------------------------------------------------------------------------
// Copies
// ---------------------------------------------------------------------------

fn copy_pairs(v: &Vec<(String, String)>) -> (r: Vec<(String, String)>)
    ensures
        r@ == v@,
{
    let mut r: Vec<(String, String)> = Vec::new();
    let mut i: usize = 0;
    while i < v.len()
        invariant
            i <= v@.len(),
            r@ == v@.subrange(0, i as int),
        decreases v@.len() - i,
    {
        r.push((v[i].0.clone(), v[i].1.clone()));
        assert(r@ =~= v@.subrange(0, i + 1));
        i += 1;
    }
    assert(r@ =~= v@);
    r
}

/// A field-by-field copy of a definition.
pub fn copy_spec(s: &SubagentSpec) -> (r: SubagentSpec)
    ensures
        r.metadata.name == s.metadata.name,
        r.metadata.description == s.metadata.description,
        r.metadata.model == s.metadata.model,
        r.metadata.tools@ == s.metadata.tools@,
        r.metadata.keywords@ == s.metadata.keywords@,
        r.instructions == s.instructions,
        r.source_path == s.source_path,
        r.source == s.source,
        r.hash == s.hash,
{
    let model_config = match &s.metadata.model_config {
        Some(b) => Some(
            ModelBinding {
                provider_id: copy_opt(&b.provider_id),
                model: copy_opt(&b.model),
                endpoint: copy_opt(&b.endpoint),
                parameters: copy_pairs(&b.parameters),
            },
        ),
        None => None,
    };
    SubagentSpec {
        metadata: SubagentMetadata {
            name: s.metadata.name.clone(),
            description: copy_opt(&s.metadata.description),
            model: copy_opt(&s.metadata.model),
            model_config,
            tools: copy_strings(&s.metadata.tools),
            keywords: copy_strings(&s.metadata.keywords),
        },
        instructions: s.instructions.clone(),
        source_path: copy_opt(&s.source_path),
        source: s.source,
        hash: s.hash.clone(),
    }
}

fn copy_parsed(p: &Result<SubagentSpec, String>) -> (r: Result<SubagentSpec, String>)
    ensures
        parsed_v(r) == parsed_v(*p),
{
    match p {
        Ok(s) => Ok(copy_spec(s)),
        Err(m) => Err(m.clone()),
    }
}

// ---------------------------------------------------------------------------
// Registry
// ---------------------------------------------------------------------------

impl SubagentRegistry {
    pub open spec fn cache_v(&self) -> Seq<DocV> {
        self.cache@.map_values(|d: CachedDoc| doc_v(d))
    }

    pub open spec fn records_v(&self) -> Seq<RecV> {
        self.records@.map_values(|r: SubagentRecord| rec_v(r))
    }

    /// A registry over the two tier directories, with nothing loaded yet.
    pub fn with_directories(project_dir: String, user_dir: String) -> (r: Self)
        ensures
            r.project_dir == project_dir,
            r.user_dir == user_dir,
            r.cache_v() == Seq::<DocV>::empty(),
            r.records_v() == Seq::<RecV>::empty(),
            r.last_errors@.len() == 0,
    {
        let r = SubagentRegistry {
            project_dir,
            user_dir,
            cache: Vec::new(),
            records: Vec::new(),
            last_errors: Vec::new(),
        };
        assert(r.cache_v() =~= Seq::<DocV>::empty());
        assert(r.records_v() =~= Seq::<RecV>::empty());
        r
    }

    fn find_cached(&self, path: &str, source: AgentSource) -> (r: Option<usize>)
        ensures
            match r {
                Some(i) => i as int == find_doc(self.cache_v(), path@, source, self.cache@.len() as int) && i < self.cache@.len(),
                None => find_doc(self.cache_v(), path@, source, self.cache@.len() as int) < 0,
            },
    {
        let ghost c = self.cache_v();
        let mut i: usize = 0;
        while i < self.cache.len()
            invariant
                i <= self.cache@.len(),
                c == self.cache_v(),
                find_doc(c, path@, source, i as int) < 0,
            decreases self.cache@.len() - i,
        {
            if self.cache[i].source == source && same_text(self.cache[i].path.as_str(), path) {
                proof {
                    lemma_find_doc_stable(c, path@, source, i + 1, c.len() as int);
                }
                return Some(i);
            }
            i += 1;
        }
        None
    }

    /// The cached file to reuse for this file, if its tier and modification time are unchanged.
    fn hit(&self, path: &str, source: AgentSource, modified: Option<u64>) -> (r: Option<usize>)
        ensures
            match r {
                Some(i) => i as int == cache_hit(self.cache_v(), path@, source, modified) && i < self.cache@.len(),
                None => cache_hit(self.cache_v(), path@, source, modified) < 0,
            },
    {
        match self.find_cached(path, source) {
            Some(i) => {
                let d = &self.cache[i];
                if d.modified == modified {
                    Some(i)
                } else {
                    None
                }
            },
            None => None,
        }
    }

    /// Whether a file must be read and parsed: no cached result for it is still valid.
    pub fn needs_load(&self, path: &str, source: AgentSource, modified: Option<u64>) -> (r: bool)
        ensures
            r == (cache_hit(self.cache_v(), path@, source, modified) < 0),
    {
        self.hit(path, source, modified).is_none()
    }

    /// Applies one scan of both tiers (user tier first, then project tier): reuses cached
    /// results for unchanged files, keeps one record per name with the later tier winning,
    /// and reports names read afresh, names gone, and errors, each without repeats.
    pub fn reload(&mut self, scan: Vec<ScanItem>) -> (r: ReloadReport)
        ensures
            ({
                let (cache, records, loaded, removed, errors) = reload_spec(
                    old(self).cache_v(),
                    old(self).records_v(),
                    scan@,
                );
                &&& final(self).cache_v() == cache
                &&& final(self).records_v() == records
                &&& r.loaded@.map_values(|s: String| s@) == loaded
                &&& r.removed@.map_values(|s: String| s@) == removed
                &&& r.errors@.map_values(|e: SubagentRegistryError| err_v(e)) == errors
                &&& final(self).last_errors@.map_values(|e: SubagentRegistryError| err_v(e)) == errors
            }),
            final(self).project_dir == old(self).project_dir,
            final(self).user_dir == old(self).user_dir,
            names_unique(final(self).records_v()),
            keys_distinct(scan@) ==> cache_keys_unique(final(self).cache_v()),
    {
        let ghost old_cache = self.cache_v();
        let ghost old_records = self.records_v();
        let mut cache: Vec<CachedDoc> = Vec::new();
        let mut records: Vec<SubagentRecord> = Vec::new();
        let mut loaded: Vec<String> = Vec::new();
        let mut errors: Vec<SubagentRegistryError> = Vec::new();
        let mut i: usize = 0;
        let n = scan.len();
        while i < n
            invariant
                n == scan@.len(),
                i <= n,
                old_cache == self.cache_v(),
                old_records == self.records_v(),
                ({
                    let acc = run_prefix(old_cache, scan@, i as int);
                    &&& cache@.map_values(|d: CachedDoc| doc_v(d)) == acc.cache
                    &&& records@.map_values(|r: SubagentRecord| rec_v(r)) == acc.records
                    &&& loaded@.map_values(|s: String| s@) == acc.loaded
                    &&& errors@.map_values(|e: SubagentRegistryError| err_v(e)) == acc.errors
                }),
            decreases n - i,
        {
            let item = &scan[i];
            match item {
                ScanItem::DirError { dir, message } => {
                    push_error(&mut errors, dir, message);
                },
                ScanItem::File { path, source, modified, document } => {
                    let (parsed, fresh) = match self.hit(path.as_str(), *source, *modified) {
                        Some(h) => (copy_parsed(&self.cache[h].parsed), false),
                        None => match document {
                            Some(p) => (copy_parsed(p), true),
                            None => (Err(String::from_str("definition was not read")), true),
                        },
                    };
                    match &parsed {
                        Ok(spec) => {
                            upsert_record(&mut records, spec, *source);
                            if fresh {
                                push_name(&mut loaded, &spec.metadata.name);
                            }
                        },
                        Err(m) => {
                            push_error(&mut errors, path, m);
                        },
                    }
                    let ghost before = cache@;
                    cache.push(
                        CachedDoc {
                            path: path.clone(),
                            source: *source,
                            modified: *modified,
                            parsed,
                        },
                    );
                    assert(cache@.map_values(|d: CachedDoc| doc_v(d)) =~= before.map_values(|d: CachedDoc| doc_v(d)).push(doc_v(cache@.last())));
                },
            }
            i += 1;
        }
        // names that no record has any more
        let mut removed: Vec<String> = Vec::new();
        let mut k: usize = 0;
        while k < self.records.len()
            invariant
                k <= self.records@.len(),
                old_records == self.records_v(),
                removed@.map_values(|s: String| s@) == removed_names(
                    old_records,
                    records@.map_values(|r: SubagentRecord| rec_v(r)),
                    k as int,
                ),
            decreases self.records@.len() - k,
        {
            let ghost before = removed@;
            if find_record(&records, self.records[k].spec.metadata.name.as_str()).is_none() {
                removed.push(self.records[k].spec.metadata.name.clone());
                assert(removed@.map_values(|s: String| s@) =~= before.map_values(|s: String| s@).push(old_records[k as int].0));
            } else {
                assert(removed@.map_values(|s: String| s@) =~= before.map_values(|s: String| s@));
            }
            k += 1;
        }
        let mut last: Vec<SubagentRegistryError> = Vec::new();
        let mut e: usize = 0;
        while e < errors.len()
            invariant
                e <= errors@.len(),
                last@.len() == e,
                forall|j: int| 0 <= j < e ==> err_v(#[trigger] last@[j]) == err_v(errors@[j]),
            decreases errors@.len() - e,
        {
            last.push(SubagentRegistryError { path: errors[e].path.clone(), message: errors[e].message.clone() });
            e += 1;
        }
        assert(last@.map_values(|x: SubagentRegistryError| err_v(x)) =~= errors@.map_values(|x: SubagentRegistryError| err_v(x)));
        proof {
            lemma_run_names_unique(old_cache, scan@, scan@.len() as int);
            if keys_distinct(scan@) {
                lemma_cache_keys_unique(old_cache, scan@);
            }
        }
        self.cache = cache;
        self.records = records;
        self.last_errors = last;
        ReloadReport { loaded, removed, errors }
    }

    /// The record named `name`, if one is in effect.
    pub fn get(&self, name: &str) -> (r: Option<&SubagentRecord>)
        ensures
            match r {
                Some(rec) => {
                    let i = find_rec(self.records_v(), name@, self.records@.len() as int);
                    i >= 0 && rec_v(*rec) == self.records_v()[i]
                },
                None => find_rec(self.records_v(), name@, self.records@.len() as int) < 0,
            },
    {
        match find_record(&self.records, name) {
            Some(i) => Some(&self.records[i]),
            None => None,
        }
    }

    /// The records in effect, in the order their names first appeared.
    pub fn list(&self) -> (r: &Vec<SubagentRecord>)
        ensures
            r == &self.records,
    {
        &self.records
    }

    /// The errors of the last reload.
    pub fn last_errors(&self) -> (r: &Vec<SubagentRegistryError>)
        ensures
            r == &self.last_errors,
    {
        &self.last_errors
    }
}

fn find_record(records: &Vec<SubagentRecord>, name: &str) -> (r: Option<usize>)
    ensures
        match r {
            Some(i) => i as int == find_rec(records@.map_values(|x: SubagentRecord| rec_v(x)), name@, records@.len() as int) && i < records@.len(),
            None => find_rec(records@.map_values(|x: SubagentRecord| rec_v(x)), name@, records@.len() as int) < 0,
        },
{
    let ghost rv = records@.map_values(|x: SubagentRecord| rec_v(x));
    let mut i: usize = 0;
    while i < records.len()
        invariant
            i <= records@.len(),
            rv == records@.map_values(|x: SubagentRecord| rec_v(x)),
            find_rec(rv, name@, i as int) < 0,
        decreases records@.len() - i,
    {
        if same_text(records[i].spec.metadata.name.as_str(), name) {
            proof {
                lemma_find_rec_stable(rv, name@, i + 1, rv.len() as int);
            }
            return Some(i);
        }
        i += 1;
    }
    None
}

fn upsert_record(records: &mut Vec<SubagentRecord>, spec: &SubagentSpec, source: AgentSource)
    ensures
        final(records)@.map_values(|x: SubagentRecord| rec_v(x)) == upsert_rec(
            old(records)@.map_values(|x: SubagentRecord| rec_v(x)),
            (spec.metadata.name@, source, spec_v(*spec)),
        ),
{
    let ghost before = records@.map_values(|x: SubagentRecord| rec_v(x));
    let rec = SubagentRecord { spec: copy_spec(spec), source };
    let ghost rv = rec_v(rec);
    match find_record(records, spec.metadata.name.as_str()) {
        Some(i) => {
            if records[i].source == AgentSource::Project && source != AgentSource::Project {
                return;
            }
            records.set(i, rec);
            assert(records@.map_values(|x: SubagentRecord| rec_v(x)) =~= before.update(i as int, rv));
        },
        None => {
            records.push(rec);
            assert(records@.map_values(|x: SubagentRecord| rec_v(x)) =~= before.push(rv));
        },
    }
}

fn push_name(names: &mut Vec<String>, name: &String)
    ensures
        final(names)@.map_values(|s: String| s@) == push_unique(old(names)@.map_values(|s: String| s@), name@),
{
    let ghost before = names@.map_values(|s: String| s@);
    let mut i: usize = 0;
    while i < names.len()
        invariant
            i <= names@.len(),
            before == names@.map_values(|s: String| s@),
            forall|k: int| 0 <= k < i ==> before[k] != name@,
        decreases names@.len() - i,
    {
        if same_text(names[i].as_str(), name.as_str()) {
            assert(before[i as int] == name@);
            assert(before.contains(name@));
            return;
        }
        i += 1;
    }
    assert(!before.contains(name@));
    names.push(name.clone());
    assert(names@.map_values(|s: String| s@) =~= before.push(name@));
}

fn push_error(errors: &mut Vec<SubagentRegistryError>, path: &String, message: &String)
    ensures
        final(errors)@.map_values(|e: SubagentRegistryError| err_v(e)) == push_unique(
            old(errors)@.map_values(|e: SubagentRegistryError| err_v(e)),
            (path@, message@),
        ),
{
    let ghost before = errors@.map_values(|e: SubagentRegistryError| err_v(e));
    let ghost x = (path@, message@);
    let mut i: usize = 0;
    while i < errors.len()
        invariant
            i <= errors@.len(),
            before == errors@.map_values(|e: SubagentRegistryError| err_v(e)),
            x == (path@, message@),
            forall|k: int| 0 <= k < i ==> before[k] != x,
        decreases errors@.len() - i,
    {
        assert(before[i as int] == (errors@[i as int].path@, errors@[i as int].message@));
        let e = &errors[i];
        let same_path = same_text(e.path.as_str(), path.as_str());
        let same_message = same_text(e.message.as_str(), message.as_str());
        if same_path && same_message {
            assert(before[i as int] == x);
            assert(before.contains(x));
            return;
        }
        i += 1;
    }
    assert(!before.contains(x));
    errors.push(SubagentRegistryError { path: path.clone(), message: message.clone() });
    assert(errors@.map_values(|e: SubagentRegistryError| err_v(e)) =~= before.push(x));
}

proof fn lemma_find_doc_stable(s: Seq<DocV>, path: Seq<char>, source: AgentSource, n: int, m: int)
    requires
        1 <= n <= m <= s.len(),
        find_doc(s, path, source, n) >= 0,
    ensures
        find_doc(s, path, source, m) == find_doc(s, path, source, n),
    decreases m - n,
{
    if m > n {
        lemma_find_doc_stable(s, path, source, n, m - 1);
    }
}

proof fn lemma_find_rec_stable(s: Seq<RecV>, name: Seq<char>, n: int, m: int)
    requires
        1 <= n <= m <= s.len(),
        find_rec(s, name, n) >= 0,
    ensures
        find_rec(s, name, m) == find_rec(s, name, n),
    decreases m - n,
{
    if m > n {
        lemma_find_rec_stable(s, name, n, m - 1);
    }
}

// ---------------------------------------------------------------------------
// Laws
// ---------------------------------------------------------------------------

pub open spec fn is_file(item: ScanItem) -> bool {
    item is File
}

/// How many of the first `n` scan items are files.
pub open spec fn files_before(scan: Seq<ScanItem>, n: int) -> int
    decreases n,
{
    if n <= 0 {
        0
    } else {
        files_before(scan, n - 1) + if is_file(scan[n - 1]) { 1int } else { 0int }
    }
}

pub open spec fn file_key(item: ScanItem) -> (Seq<char>, AgentSource, Option<u64>) {
    match item {
        ScanItem::File { path, source, modified, .. } => (path@, source, modified),
        ScanItem::DirError { dir, .. } => (dir@, AgentSource::Inline, None),
    }
}

/// Two scans of an unchanged file system: the same entries with the same paths, tiers and
/// modification times (what was read may differ).
pub open spec fn same_listing(a: Seq<ScanItem>, b: Seq<ScanItem>) -> bool {
    &&& a.len() == b.len()
    &&& forall|i: int|
        0 <= i < a.len() ==> {
            &&& is_file(#[trigger] a[i]) == is_file(b[i])
            &&& is_file(a[i]) ==> file_key(a[i]) == file_key(b[i])
            &&& !is_file(a[i]) ==> a[i] == b[i]
        }
}

/// No two files of a scan share both path and tier.
pub open spec fn keys_distinct(scan: Seq<ScanItem>) -> bool {
    forall|i: int, j: int|
        0 <= i < scan.len() && 0 <= j < scan.len() && i != j && is_file(scan[i]) && is_file(scan[j])
            ==> ((#[trigger] file_key(scan[i])).0, file_key(scan[i]).1) != ((#[trigger] file_key(scan[j])).0, file_key(scan[j]).1)
}

proof fn lemma_files_before_mono(scan: Seq<ScanItem>, j: int, k: int)
    requires
        0 <= j < k <= scan.len(),
        is_file(scan[j]),
    ensures
        files_before(scan, j) < files_before(scan, k),
    decreases k - j,
{
    if k > j + 1 {
        lemma_files_before_mono(scan, j, k - 1);
    }
}

proof fn lemma_files_before_bounds(scan: Seq<ScanItem>, n: int)
    requires
        0 <= n <= scan.len(),
    ensures
        0 <= files_before(scan, n) <= n,
    decreases n,
{
    if n > 0 {
        lemma_files_before_bounds(scan, n - 1);
    }
}

/// Cache entry `k` stands for one of the first `n` scan items.
pub open spec fn covered(scan: Seq<ScanItem>, n: int, k: int) -> bool {
    exists|j: int| 0 <= j < n && is_file(scan[j]) && files_before(scan, j) == k
}

/// The shape of the new cache: one entry per file, in scan order.
proof fn lemma_cache_shape(old_cache: Seq<DocV>, scan: Seq<ScanItem>, n: int)
    requires
        0 <= n <= scan.len(),
    ensures
        run_prefix(old_cache, scan, n).cache.len() == files_before(scan, n),
        forall|j: int|
            0 <= j < n && is_file(#[trigger] scan[j]) ==> {
                let c = run_prefix(old_cache, scan, n).cache[files_before(scan, j)];
                &&& (c.0, c.1, c.2) == file_key(scan[j])
                &&& c.3 == item_doc(old_cache, scan[j])
            },
        forall|k: int| 0 <= k < files_before(scan, n) ==> #[trigger] covered(scan, n, k),
    decreases n,
{
    if n > 0 {
        lemma_cache_shape(old_cache, scan, n - 1);
        let prev = run_prefix(old_cache, scan, n - 1);
        let cur = run_prefix(old_cache, scan, n);
        assert forall|j: int| 0 <= j < n && is_file(#[trigger] scan[j]) implies {
            let c = cur.cache[files_before(scan, j)];
            &&& (c.0, c.1, c.2) == file_key(scan[j])
            &&& c.3 == item_doc(old_cache, scan[j])
        } by {
            if j < n - 1 {
                lemma_files_before_mono(scan, j, n - 1);
                lemma_files_before_bounds(scan, j);
                assert(cur.cache[files_before(scan, j)] == prev.cache[files_before(scan, j)]);
            }
        }
        assert forall|k: int| 0 <= k < files_before(scan, n) implies #[trigger] covered(scan, n, k) by {
            if k < files_before(scan, n - 1) {
                assert(covered(scan, n - 1, k));
                let j = choose|j: int| 0 <= j < n - 1 && is_file(scan[j]) && files_before(scan, j) == k;
                assert(0 <= j < n && is_file(scan[j]) && files_before(scan, j) == k);
            } else {
                assert(is_file(scan[n - 1]) && files_before(scan, n - 1) == k);
            }
        }
    }
}

proof fn lemma_find_doc_first(c: Seq<DocV>, p: Seq<char>, src: AgentSource, k: int, n: int)
    requires
        0 <= k < n <= c.len(),
        c[k].0 == p && c[k].1 == src,
        forall|m: int| 0 <= m < k ==> ((#[trigger] c[m]).0, c[m].1) != (p, src),
    ensures
        find_doc(c, p, src, n) == k,
    decreases n,
{
    if n > k + 1 {
        lemma_find_doc_first(c, p, src, k, n - 1);
    } else {
        lemma_find_doc_none(c, p, src, k);
    }
}

proof fn lemma_find_doc_none(c: Seq<DocV>, p: Seq<char>, src: AgentSource, n: int)
    requires
        0 <= n <= c.len(),
        forall|m: int| 0 <= m < n ==> ((#[trigger] c[m]).0, c[m].1) != (p, src),
    ensures
        find_doc(c, p, src, n) < 0,
    decreases n,
{
    if n > 0 {
        lemma_find_doc_none(c, p, src, n - 1);
    }
}

proof fn lemma_find_rec_self(s: Seq<RecV>, k: int, n: int)
    requires
        0 <= k < n <= s.len(),
    ensures
        find_rec(s, s[k].0, n) >= 0,
    decreases n,
{
    if n > k + 1 {
        lemma_find_rec_self(s, k, n - 1);
        lemma_find_rec_stable(s, s[k].0, n - 1, n);
    }
}

proof fn lemma_nothing_removed(s: Seq<RecV>, n: int)
    requires
        0 <= n <= s.len(),
    ensures
        removed_names(s, s, n) == Seq::<Seq<char>>::empty(),
    decreases n,
{
    if n > 0 {
        lemma_nothing_removed(s, n - 1);
        lemma_find_rec_self(s, n - 1, s.len() as int);
        assert(removed_names(s, s, n) =~= removed_names(s, s, n - 1));
    }
}

/// In a second pass over an unchanged scan, every file hits the cache of the first pass.
proof fn lemma_second_pass(old_cache: Seq<DocV>, a: Seq<ScanItem>, b: Seq<ScanItem>, n: int)
    requires
        0 <= n <= a.len(),
        same_listing(a, b),
        keys_distinct(a),
    ensures
        ({
            let first = run_prefix(old_cache, a, a.len() as int);
            let r1 = run_prefix(old_cache, a, n);
            let r2 = run_prefix(first.cache, b, n);
            &&& r2.cache == r1.cache
            &&& r2.records == r1.records
            &&& r2.errors == r1.errors
            &&& r2.loaded == Seq::<Seq<char>>::empty()
        }),
    decreases n,
{
    if n > 0 {
        lemma_second_pass(old_cache, a, b, n - 1);
        let first = run_prefix(old_cache, a, a.len() as int);
        let j = n - 1;
        if is_file(a[j]) {
            lemma_cache_shape(old_cache, a, a.len() as int);
            lemma_files_before_mono(a, j, a.len() as int);
            lemma_files_before_bounds(a, j);
            let k = files_before(a, j);
            let p = file_key(a[j]).0;
            let src = file_key(a[j]).1;
            assert forall|m: int| 0 <= m < k implies ((#[trigger] first.cache[m]).0, first.cache[m].1) != (p, src) by {
                assert(covered(a, a.len() as int, m));
                let jj = choose|jj: int| 0 <= jj < a.len() && is_file(a[jj]) && files_before(a, jj) == m;
                if jj >= j {
                    if jj > j {
                        lemma_files_before_mono(a, j, jj);
                    }
                }
                assert(jj != j);
                assert(first.cache[files_before(a, jj)].0 == file_key(a[jj]).0);
                assert(first.cache[files_before(a, jj)].1 == file_key(a[jj]).1);
                assert((file_key(a[jj]).0, file_key(a[jj]).1) != (file_key(a[j]).0, file_key(a[j]).1));
            }
            lemma_find_doc_first(first.cache, p, src, k, first.cache.len() as int);
            assert(file_key(b[j]) == file_key(a[j]));
            assert(cache_hit(first.cache, file_key(b[j]).0, file_key(b[j]).1, file_key(b[j]).2) == k);
            assert(item_doc(first.cache, b[j]) == item_doc(old_cache, a[j]));
        } else {
            assert(b[j] == a[j]);
        }
    }
}

/// Reloading twice over an unchanged file system: the second reload reads nothing afresh,
/// removes nothing, and reports the same errors as the first.
pub proof fn law_idempotent_reload(
    old_cache: Seq<DocV>,
    old_records: Seq<RecV>,
    first_scan: Seq<ScanItem>,
    second_scan: Seq<ScanItem>,
)
    requires
        same_listing(first_scan, second_scan),
        keys_distinct(first_scan),
    ensures
        ({
            let (c1, r1, l1, rm1, e1) = reload_spec(old_cache, old_records, first_scan);
            let (c2, r2, l2, rm2, e2) = reload_spec(c1, r1, second_scan);
            &&& l2 == Seq::<Seq<char>>::empty()
            &&& rm2 == Seq::<Seq<char>>::empty()
            &&& e2 == e1
            &&& r2 == r1
        }),
{
    lemma_second_pass(old_cache, first_scan, second_scan, first_scan.len() as int);
    let first = run_prefix(old_cache, first_scan, first_scan.len() as int);
    lemma_nothing_removed(first.records, first.records.len() as int);
}

proof fn lemma_find_rec_in(s: Seq<RecV>, nm: Seq<char>, n: int)
    requires
        0 <= n <= s.len(),
    ensures
        find_rec(s, nm, n) < n,
        find_rec(s, nm, n) >= 0 ==> s[find_rec(s, nm, n)].0 == nm,
        find_rec(s, nm, n) < 0 ==> forall|k: int| 0 <= k < n ==> (#[trigger] s[k]).0 != nm,
    decreases n,
{
    if n > 0 {
        lemma_find_rec_in(s, nm, n - 1);
    }
}

proof fn lemma_find_rec_update(s: Seq<RecV>, i: int, r: RecV, nm: Seq<char>, n: int)
    requires
        0 <= i < s.len(),
        0 <= n <= s.len(),
        s[i].0 == r.0,
    ensures
        find_rec(s.update(i, r), nm, n) == find_rec(s, nm, n),
    decreases n,
{
    if n > 0 {
        lemma_find_rec_update(s, i, r, nm, n - 1);
    }
}

proof fn lemma_find_rec_prefix(s: Seq<RecV>, t: Seq<RecV>, nm: Seq<char>, n: int)
    requires
        0 <= n <= s.len(),
        n <= t.len(),
        forall|k: int| 0 <= k < n ==> s[k] == t[k],
    ensures
        find_rec(s, nm, n) == find_rec(t, nm, n),
    decreases n,
{
    if n > 0 {
        lemma_find_rec_prefix(s, t, nm, n - 1);
        assert(s[n - 1] == t[n - 1]);
    }
}

/// After `upsert_rec`, every other name finds what it found, and the name of `r` finds `r`
/// unless a project-tier record kept its place.
proof fn lemma_upsert_rec(s: Seq<RecV>, r: RecV, nm: Seq<char>)
    ensures
        ({
            let t = upsert_rec(s, r);
            let i = find_rec(t, nm, t.len() as int);
            let i0 = find_rec(s, nm, s.len() as int);
            &&& nm == r.0 ==> i >= 0 && (if i0 >= 0 && s[i0].1 == AgentSource::Project && r.1 != AgentSource::Project {
                t[i] == s[i0]
            } else {
                t[i] == r
            })
            &&& nm != r.0 ==> (i >= 0) == (i0 >= 0) && (i >= 0 ==> t[i] == s[i0])
        }),
{
    let t = upsert_rec(s, r);
    let j = find_rec(s, r.0, s.len() as int);
    lemma_find_rec_in(s, r.0, s.len() as int);
    lemma_find_rec_in(s, nm, s.len() as int);
    if j >= 0 {
        if s[j].1 == AgentSource::Project && r.1 != AgentSource::Project {
        } else {
            lemma_find_rec_update(s, j, r, nm, s.len() as int);
            let i0 = find_rec(s, nm, s.len() as int);
            if nm != r.0 && i0 >= 0 {
                assert(i0 != j);
            }
        }
    } else {
        lemma_find_rec_prefix(t, s, nm, s.len() as int);
        assert(find_rec(t, nm, t.len() as int) == if find_rec(t, nm, s.len() as int) >= 0 {
            find_rec(t, nm, s.len() as int)
        } else if t[s.len() as int].0 == nm {
            s.len() as int
        } else {
            -1
        });
        let i0 = find_rec(s, nm, s.len() as int);
        if i0 >= 0 {
            assert(t[i0] == s[i0]);
        }
    }
}

pub open spec fn doc_name(d: ParsedV) -> Option<Seq<char>> {
    match d {
        Ok(nd) => Some(nd.0),
        Err(_) => None,
    }
}

/// The last of the first `n` scan items that is a file defining `nm`, or -1.
pub open spec fn last_named(old_cache: Seq<DocV>, scan: Seq<ScanItem>, n: int, nm: Seq<char>) -> int
    decreases n,
{
    if n <= 0 {
        -1
    } else if is_file(scan[n - 1]) && doc_name(item_doc(old_cache, scan[n - 1])) == Some(nm) {
        n - 1
    } else {
        last_named(old_cache, scan, n - 1, nm)
    }
}

/// The last of the first `n` scan items that is a project-tier file defining `nm`, or -1.
pub open spec fn last_project(old_cache: Seq<DocV>, scan: Seq<ScanItem>, n: int, nm: Seq<char>) -> int
    decreases n,
{
    if n <= 0 {
        -1
    } else if is_file(scan[n - 1]) && file_key(scan[n - 1]).1 == AgentSource::Project && doc_name(
        item_doc(old_cache, scan[n - 1]),
    ) == Some(nm) {
        n - 1
    } else {
        last_project(old_cache, scan, n - 1, nm)
    }
}

/// The file whose definition of `nm` is in effect: the last project-tier one, else the last
/// one.
pub open spec fn winner(old_cache: Seq<DocV>, scan: Seq<ScanItem>, n: int, nm: Seq<char>) -> int {
    if last_project(old_cache, scan, n, nm) >= 0 {
        last_project(old_cache, scan, n, nm)
    } else {
        last_named(old_cache, scan, n, nm)
    }
}

/// The record for a name is the definition of the file that wins it.
proof fn lemma_records_winner(old_cache: Seq<DocV>, scan: Seq<ScanItem>, n: int, nm: Seq<char>)
    requires
        0 <= n <= scan.len(),
    ensures
        ({
            let recs = run_prefix(old_cache, scan, n).records;
            let i = find_rec(recs, nm, recs.len() as int);
            let w = winner(old_cache, scan, n, nm);
            let l = last_named(old_cache, scan, n, nm);
            let p = last_project(old_cache, scan, n, nm);
            &&& (i >= 0) == (l >= 0)
            &&& p >= 0 ==> l >= 0
            &&& (l >= 0 && file_key(scan[l]).1 == AgentSource::Project) ==> p >= 0
            &&& p >= 0 ==> p < n && is_file(scan[p]) && file_key(scan[p]).1 == AgentSource::Project
            &&& l >= 0 ==> l < n && is_file(scan[l])
            &&& l >= 0 ==> 0 <= w < n && item_doc(old_cache, scan[w]) == Ok::<SpecV, Seq<char>>(recs[i].2)
                && recs[i].0 == nm && recs[i].1 == file_key(scan[w]).1
        }),
    decreases n,
{
    if n > 0 {
        lemma_records_winner(old_cache, scan, n - 1, nm);
        let prev = run_prefix(old_cache, scan, n - 1);
        let item = scan[n - 1];
        let d = item_doc(old_cache, item);
        if is_file(item) {
            match d {
                Ok(nd) => {
                    lemma_upsert_rec(prev.records, (nd.0, file_key(item).1, nd), nm);
                    lemma_find_rec_in(prev.records, nm, prev.records.len() as int);
                },
                Err(_) => {},
            }
        }
    }
}

/// When a project-tier file defines a name, the record in effect for that name comes from
/// the project tier, holding the definition of the last project-tier file that defines it,
/// whatever the order of the scan.
pub proof fn law_project_precedence(
    old_cache: Seq<DocV>,
    old_records: Seq<RecV>,
    scan: Seq<ScanItem>,
    j: int,
    nm: Seq<char>,
)
    requires
        0 <= j < scan.len(),
        is_file(scan[j]),
        file_key(scan[j]).1 == AgentSource::Project,
        doc_name(item_doc(old_cache, scan[j])) == Some(nm),
    ensures
        ({
            let recs = reload_spec(old_cache, old_records, scan).1;
            let i = find_rec(recs, nm, recs.len() as int);
            let p = last_project(old_cache, scan, scan.len() as int, nm);
            &&& i >= 0
            &&& recs[i].1 == AgentSource::Project
            &&& 0 <= p < scan.len()
            &&& file_key(scan[p]).1 == AgentSource::Project
            &&& item_doc(old_cache, scan[p]) == Ok::<SpecV, Seq<char>>(recs[i].2)
        }),
{
    lemma_records_winner(old_cache, scan, scan.len() as int, nm);
    lemma_last_project_after(old_cache, scan, scan.len() as int, nm, j);
}

proof fn lemma_last_project_after(old_cache: Seq<DocV>, scan: Seq<ScanItem>, n: int, nm: Seq<char>, j: int)
    requires
        0 <= j < n <= scan.len(),
        is_file(scan[j]),
        file_key(scan[j]).1 == AgentSource::Project,
        doc_name(item_doc(old_cache, scan[j])) == Some(nm),
    ensures
        j <= last_project(old_cache, scan, n, nm) < n,
    decreases n,
{
    if n - 1 > j {
        if !(is_file(scan[n - 1]) && file_key(scan[n - 1]).1 == AgentSource::Project && doc_name(item_doc(old_cache, scan[n - 1])) == Some(nm)) {
            lemma_last_project_after(old_cache, scan, n - 1, nm, j);
        }
    }
}

/// No two records share a name.
pub open spec fn names_unique(recs: Seq<RecV>) -> bool {
    forall|i: int, j: int| 0 <= i < recs.len() && 0 <= j < recs.len() && i != j ==> (#[trigger] recs[i]).0 != (#[trigger] recs[j]).0
}

proof fn lemma_upsert_rec_unique(s: Seq<RecV>, r: RecV)
    requires
        names_unique(s),
    ensures
        names_unique(upsert_rec(s, r)),
{
    lemma_find_rec_in(s, r.0, s.len() as int);
    let t = upsert_rec(s, r);
    let k = find_rec(s, r.0, s.len() as int);
    assert forall|i: int, j: int| 0 <= i < t.len() && 0 <= j < t.len() && i != j implies (#[trigger] t[i]).0 != (#[trigger] t[j]).0 by {
        if k >= 0 {
            assert(t[i].0 == s[i].0 && t[j].0 == s[j].0);
        } else {
            if i < s.len() && j < s.len() {
                assert(t[i] == s[i] && t[j] == s[j]);
            } else if i < s.len() {
                assert(t[i] == s[i]);
            } else {
                assert(t[j] == s[j]);
            }
        }
    }
}

/// A reload keeps one record per name.
pub proof fn lemma_run_names_unique(old_cache: Seq<DocV>, scan: Seq<ScanItem>, n: int)
    requires
        0 <= n <= scan.len(),
    ensures
        names_unique(run_prefix(old_cache, scan, n).records),
    decreases n,
{
    if n > 0 {
        lemma_run_names_unique(old_cache, scan, n - 1);
        let prev = run_prefix(old_cache, scan, n - 1);
        let item = scan[n - 1];
        if is_file(item) {
            match item_doc(old_cache, item) {
                Ok(nd) => {
                    lemma_upsert_rec_unique(prev.records, (nd.0, file_key(item).1, nd));
                },
                Err(_) => {},
            }
        }
    }
}

/// No two cached files share path and tier.
pub open spec fn cache_keys_unique(c: Seq<DocV>) -> bool {
    forall|i: int, j: int| 0 <= i < c.len() && 0 <= j < c.len() && i != j ==> ((#[trigger] c[i]).0, c[i].1) != ((#[trigger] c[j]).0, c[j].1)
}

/// A scan whose files have distinct keys leaves a cache with distinct keys.
pub proof fn lemma_cache_keys_unique(old_cache: Seq<DocV>, scan: Seq<ScanItem>)
    requires
        keys_distinct(scan),
    ensures
        cache_keys_unique(run_prefix(old_cache, scan, scan.len() as int).cache),
{
    let n = scan.len() as int;
    let c = run_prefix(old_cache, scan, n).cache;
    lemma_cache_shape(old_cache, scan, n);
    assert forall|a: int, b: int| 0 <= a < c.len() && 0 <= b < c.len() && a != b implies ((#[trigger] c[a]).0, c[a].1) != ((#[trigger] c[b]).0, c[b].1) by {
        assert(covered(scan, n, a));
        assert(covered(scan, n, b));
        let ja = choose|j: int| 0 <= j < n && is_file(scan[j]) && files_before(scan, j) == a;
        let jb = choose|j: int| 0 <= j < n && is_file(scan[j]) && files_before(scan, j) == b;
        assert(ja != jb);
        assert(c[files_before(scan, ja)].0 == file_key(scan[ja]).0);
        assert(c[files_before(scan, jb)].0 == file_key(scan[jb]).0);
    }
}

} // verus!
