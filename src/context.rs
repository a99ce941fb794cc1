use vstd::prelude::*;
use vstd::string::StringExecFns;
use crate::pipeline::opt_str;
use crate::pipeline::{ProposedChanges, RequirementsSpec, ReviewFindings, TestPlan, TestResults};
use crate::requirements::SpecParserSeed;
use crate::text::same_text;

verus! {

/// The artifacts that pipeline stages hand to one another, one kind per stage.
#[derive(Debug, Clone, PartialEq, Eq)]
pub enum Artifact {
    Seed(SpecParserSeed),
    Requirements(RequirementsSpec),
    Changes(ProposedChanges),
    Plan(TestPlan),
    Results(TestResults),
    Review(ReviewFindings),
}

/// The kind of an artifact: the slot it occupies.
#[derive(Debug, Clone, Copy, PartialEq, Eq, Structural)]
pub enum ArtifactKind {
    Seed,
    Requirements,
    Changes,
    Plan,
    Results,
    Review,
}

impl Artifact {
    pub open spec fn kind_of(self) -> ArtifactKind {
        match self {
            Artifact::Seed(_) => ArtifactKind::Seed,
            Artifact::Requirements(_) => ArtifactKind::Requirements,
            Artifact::Changes(_) => ArtifactKind::Changes,
            Artifact::Plan(_) => ArtifactKind::Plan,
            Artifact::Results(_) => ArtifactKind::Results,
            Artifact::Review(_) => ArtifactKind::Review,
        }
    }

    pub fn kind(&self) -> (r: ArtifactKind)
        ensures
            r == self.kind_of(),
    {
        match self {
            Artifact::Seed(_) => ArtifactKind::Seed,
            Artifact::Requirements(_) => ArtifactKind::Requirements,
            Artifact::Changes(_) => ArtifactKind::Changes,
            Artifact::Plan(_) => ArtifactKind::Plan,
            Artifact::Results(_) => ArtifactKind::Results,
            Artifact::Review(_) => ArtifactKind::Review,
        }
    }
}

/// The name of the payload type that a kind of slot holds.
pub open spec fn kind_label(k: ArtifactKind) -> Seq<char> {
    match k {
        ArtifactKind::Seed => "SpecParserSeed"@,
        ArtifactKind::Requirements => "RequirementsSpec"@,
        ArtifactKind::Changes => "ProposedChanges"@,
        ArtifactKind::Plan => "TestPlan"@,
        ArtifactKind::Results => "TestResults"@,
        ArtifactKind::Review => "ReviewFindings"@,
    }
}

impl ArtifactKind {
    pub fn label(self) -> (r: &'static str)
        ensures
            r@ == kind_label(self),
    {
        match self {
            ArtifactKind::Seed => "SpecParserSeed",
            ArtifactKind::Requirements => "RequirementsSpec",
            ArtifactKind::Changes => "ProposedChanges",
            ArtifactKind::Plan => "TestPlan",
            ArtifactKind::Results => "TestResults",
            ArtifactKind::Review => "ReviewFindings",
        }
    }
}

#[derive(Debug, Clone, Copy, PartialEq, Eq, Structural)]
pub enum DiagnosticLevel {
    Info,
    Warn,
    Error,
}

/// One line of the diagnostics log.
#[derive(Debug, Clone)]
pub struct DiagnosticEntry {
    pub timestamp: u64,
    pub level: DiagnosticLevel,
    pub message: String,
}

/// What a context holds, for inspection only.
#[derive(Debug, Clone)]
pub struct TaskContextSnapshot {
    pub typed_slots: Vec<String>,
    pub scratchpads: Vec<(String, String)>,
    pub diagnostics: Vec<DiagnosticEntry>,
}

/// State shared by the stages of one pipeline run: one slot per artifact kind, scratchpads
/// of JSON text by namespace, and an append-only diagnostics log.
#[derive(Debug)]
pub struct TaskContext {
    pub slots: Vec<Artifact>,
    pub scratchpads: Vec<(String, String)>,
    pub diagnostics: Vec<DiagnosticEntry>,
}

/// The first slot among the first `n` that holds an artifact of `kind`, or -1.
pub open spec fn find_kind(s: Seq<Artifact>, kind: ArtifactKind, n: int) -> int
    decreases n,
{
    if n <= 0 {
        -1
    } else if find_kind(s, kind, n - 1) >= 0 {
        find_kind(s, kind, n - 1)
    } else if s[n - 1].kind_of() == kind {
        n - 1
    } else {
        -1
    }
}

/// The first scratchpad among the first `n` named `ns`, or -1.
pub open spec fn find_pad(s: Seq<(String, String)>, ns: Seq<char>, n: int) -> int
    decreases n,
{
    if n <= 0 {
        -1
    } else if find_pad(s, ns, n - 1) >= 0 {
        find_pad(s, ns, n - 1)
    } else if s[n - 1].0@ == ns {
        n - 1
    } else {
        -1
    }
}

proof fn lemma_find_kind_stable(s: Seq<Artifact>, kind: ArtifactKind, n: int, m: int)
    requires
        1 <= n <= m <= s.len(),
        find_kind(s, kind, n) >= 0,
    ensures
        find_kind(s, kind, m) == find_kind(s, kind, n),
    decreases m - n,
{
    if m > n {
        lemma_find_kind_stable(s, kind, n, m - 1);
    }
}

proof fn lemma_find_pad_stable(s: Seq<(String, String)>, ns: Seq<char>, n: int, m: int)
    requires
        1 <= n <= m <= s.len(),
        find_pad(s, ns, n) >= 0,
    ensures
        find_pad(s, ns, m) == find_pad(s, ns, n),
    decreases m - n,
{
    if m > n {
        lemma_find_pad_stable(s, ns, n, m - 1);
    }
}

proof fn lemma_find_kind_in(s: Seq<Artifact>, kind: ArtifactKind, n: int)
    requires
        0 <= n <= s.len(),
    ensures
        find_kind(s, kind, n) < n,
        find_kind(s, kind, n) >= 0 ==> s[find_kind(s, kind, n)].kind_of() == kind,
        find_kind(s, kind, n) < 0 ==> forall|k: int| 0 <= k < n ==> (#[trigger] s[k]).kind_of() != kind,
    decreases n,
{
    if n > 0 {
        lemma_find_kind_in(s, kind, n - 1);
    }
}

/// The artifact in the slot of a kind is of that kind.
pub proof fn lemma_slot_kind(ctx: TaskContext, k: ArtifactKind)
    ensures
        ctx.slot(k) is Some ==> ctx.slot(k).unwrap().kind_of() == k,
{
    lemma_find_kind_in(ctx.slots@, k, ctx.slots@.len() as int);
}

/// No two slots hold artifacts of one kind.
pub open spec fn kinds_unique(s: Seq<Artifact>) -> bool {
    forall|i: int, j: int|
        0 <= i < s.len() && 0 <= j < s.len() && i != j ==> (#[trigger] s[i]).kind_of() != (#[trigger] s[j]).kind_of()
}

impl TaskContext {
    /// The artifact of `kind` that the context holds, if any.
    pub open spec fn slot(&self, kind: ArtifactKind) -> Option<Artifact> {
        slot_of(self.slots@, kind)
    }

    /// The scratchpad named `ns`, if any.
    pub open spec fn pad(&self, ns: Seq<char>) -> Option<Seq<char>> {
        pad_of(self.scratchpads@, ns)
    }

    pub open spec fn wf(&self) -> bool {
        kinds_unique(self.slots@)
    }

    pub fn new() -> (r: Self)
        ensures
            r.wf(),
            forall|k: ArtifactKind| (#[trigger] r.slot(k)) is None,
            forall|ns: Seq<char>| (#[trigger] r.pad(ns)) is None,
            r.diagnostics@.len() == 0,
    {
        TaskContext { slots: Vec::new(), scratchpads: Vec::new(), diagnostics: Vec::new() }
    }

    fn find_slot(&self, kind: ArtifactKind) -> (r: Option<usize>)
        ensures
            match r {
                Some(i) => i as int == find_kind(self.slots@, kind, self.slots@.len() as int) && i < self.slots@.len(),
                None => find_kind(self.slots@, kind, self.slots@.len() as int) < 0,
            },
    {
        let mut i: usize = 0;
        while i < self.slots.len()
            invariant
                i <= self.slots@.len(),
                find_kind(self.slots@, kind, i as int) < 0,
            decreases self.slots@.len() - i,
        {
            if self.slots[i].kind() == kind {
                proof {
                    lemma_find_kind_stable(self.slots@, kind, i + 1, self.slots@.len() as int);
                }
                return Some(i);
            }
            i += 1;
        }
        None
    }

    /// Stores `value` in the slot of its kind, replacing what was there.
    pub fn insert_typed(&mut self, value: Artifact)
        requires
            old(self).wf(),
        ensures
            final(self).wf(),
            final(self).slots@ == put_spec(old(self).slots@, value),
            final(self).slot(value.kind_of()) == Some(value),
            forall|k: ArtifactKind| k != value.kind_of() ==> #[trigger] final(self).slot(k) == old(self).slot(k),
            final(self).scratchpads == old(self).scratchpads,
            final(self).diagnostics == old(self).diagnostics,
    {
        let ghost old_slots = self.slots@;
        let kind = value.kind();
        match self.find_slot(kind) {
            Some(i) => {
                self.slots.set(i, value);
            },
            None => {
                self.slots.push(value);
            },
        }
        proof {
            law_typed_round_trip(old_slots, value);
        }
    }

    /// A copy of the artifact of `kind`, if the context holds one.
    pub fn get_typed(&self, kind: ArtifactKind) -> (r: Option<&Artifact>)
        ensures
            match r {
                Some(a) => self.slot(kind) == Some(*a),
                None => self.slot(kind) is None,
            },
    {
        match self.find_slot(kind) {
            Some(i) => Some(&self.slots[i]),
            None => None,
        }
    }

    /// Removes and returns the artifact of `kind`.
    pub fn take_typed(&mut self, kind: ArtifactKind) -> (r: Option<Artifact>)
        requires
            old(self).wf(),
        ensures
            final(self).wf(),
            r == old(self).slot(kind),
            final(self).slot(kind) is None,
            forall|k: ArtifactKind| k != kind ==> #[trigger] final(self).slot(k) == old(self).slot(k),
            final(self).scratchpads == old(self).scratchpads,
            final(self).diagnostics == old(self).diagnostics,
    {
        let ghost old_slots = self.slots@;
        match self.find_slot(kind) {
            Some(i) => {
                let a = self.slots.remove(i);
                proof {
                    lemma_find_kind_in(old_slots, kind, old_slots.len() as int);
                    assert forall|k: ArtifactKind| #[trigger] self.slot(k) == (if k == kind { None } else { slot_of(old_slots, k) }) by {
                        lemma_find_kind_remove(old_slots, i as int, k);
                    }
                    lemma_find_kind_remove(old_slots, i as int, kind);
                }
                Some(a)
            },
            None => None,
        }
    }

    /// Sets the scratchpad `ns` to `value`, replacing it whole.
    pub fn set_scratchpad(&mut self, ns: String, value: String)
        ensures
            final(self).pad(ns@) == Some(value@),
            forall|n: Seq<char>| n != ns@ ==> #[trigger] final(self).pad(n) == old(self).pad(n),
            final(self).slots == old(self).slots,
            final(self).diagnostics == old(self).diagnostics,
    {
        let ghost old_pads = self.scratchpads@;
        let ghost nsv = ns@;
        let ghost vv = value@;
        match self.find_pad_index(ns.as_str()) {
            Some(i) => {
                proof {
                    lemma_find_pad_in(old_pads, nsv, old_pads.len() as int);
                }
                self.scratchpads.set(i, (ns, value));
                proof {
                    assert forall|n: Seq<char>| n != nsv implies #[trigger] self.pad(n) == pad_of(old_pads, n) by {
                        lemma_find_pad_update(old_pads, i as int, self.scratchpads@[i as int], n, old_pads.len() as int);
                        lemma_find_pad_in(old_pads, n, old_pads.len() as int);
                        let j = find_pad(old_pads, n, old_pads.len() as int);
                        if j >= 0 {
                            assert(j != i);
                            assert(self.scratchpads@[j] == old_pads[j]);
                        }
                    }
                    lemma_find_pad_update(old_pads, i as int, self.scratchpads@[i as int], nsv, old_pads.len() as int);
                }
            },
            None => {
                self.scratchpads.push((ns, value));
                proof {
                    assert forall|n: Seq<char>| n != nsv implies #[trigger] self.pad(n) == pad_of(old_pads, n) by {
                        lemma_find_pad_same_prefix(self.scratchpads@, old_pads, n, old_pads.len() as int);
                        lemma_find_pad_in(old_pads, n, old_pads.len() as int);
                        let j = find_pad(old_pads, n, old_pads.len() as int);
                        if j >= 0 {
                            assert(self.scratchpads@[j] == old_pads[j]);
                        }
                    }
                    lemma_find_pad_same_prefix(self.scratchpads@, old_pads, nsv, old_pads.len() as int);
                }
            },
        }
    }

    fn find_pad_index(&self, ns: &str) -> (r: Option<usize>)
        ensures
            match r {
                Some(i) => i as int == find_pad(self.scratchpads@, ns@, self.scratchpads@.len() as int) && i < self.scratchpads@.len(),
                None => find_pad(self.scratchpads@, ns@, self.scratchpads@.len() as int) < 0,
            },
    {
        let mut i: usize = 0;
        while i < self.scratchpads.len()
            invariant
                i <= self.scratchpads@.len(),
                find_pad(self.scratchpads@, ns@, i as int) < 0,
            decreases self.scratchpads@.len() - i,
        {
            if same_text(self.scratchpads[i].0.as_str(), ns) {
                proof {
                    lemma_find_pad_stable(self.scratchpads@, ns@, i + 1, self.scratchpads@.len() as int);
                }
                return Some(i);
            }
            i += 1;
        }
        None
    }

    /// The scratchpad `ns`, if set.
    pub fn get_scratchpad(&self, ns: &str) -> (r: Option<&String>)
        ensures
            match r {
                Some(v) => self.pad(ns@) == Some(v@),
                None => self.pad(ns@) is None,
            },
    {
        match self.find_pad_index(ns) {
            Some(i) => Some(&self.scratchpads[i].1),
            None => None,
        }
    }

    /// Removes the scratchpad `ns` and returns its value.
    pub fn remove_scratchpad(&mut self, ns: &str) -> (r: Option<String>)
        ensures
            opt_str(r) == old(self).pad(ns@),
            final(self).slots == old(self).slots,
            final(self).diagnostics == old(self).diagnostics,
            final(self).scratchpads@.len() == old(self).scratchpads@.len() - if r is Some { 1int } else { 0int },
    {
        match self.find_pad_index(ns) {
            Some(i) => {
                let (_, v) = self.scratchpads.remove(i);
                Some(v)
            },
            None => None,
        }
    }

    /// What the context holds, for inspection: the labels of the filled slots, the
    /// scratchpads and the diagnostics log, in order.
    pub fn snapshot(&self) -> (r: TaskContextSnapshot)
        ensures
            r.typed_slots@.len() == self.slots@.len(),
            forall|i: int| 0 <= i < self.slots@.len() ==> (#[trigger] r.typed_slots@[i])@ == kind_label(self.slots@[i].kind_of()),
            r.scratchpads@.len() == self.scratchpads@.len(),
            forall|i: int| 0 <= i < self.scratchpads@.len() ==> (#[trigger] r.scratchpads@[i]).0@ == self.scratchpads@[i].0@
                && r.scratchpads@[i].1@ == self.scratchpads@[i].1@,
            r.diagnostics@.len() == self.diagnostics@.len(),
            forall|i: int| 0 <= i < self.diagnostics@.len() ==> (#[trigger] r.diagnostics@[i]).message@ == self.diagnostics@[i].message@
                && r.diagnostics@[i].level == self.diagnostics@[i].level && r.diagnostics@[i].timestamp == self.diagnostics@[i].timestamp,
    {
        let mut typed_slots: Vec<String> = Vec::new();
        let mut i: usize = 0;
        while i < self.slots.len()
            invariant
                i <= self.slots@.len(),
                typed_slots@.len() == i,
                forall|k: int| 0 <= k < i ==> (#[trigger] typed_slots@[k])@ == kind_label(self.slots@[k].kind_of()),
            decreases self.slots@.len() - i,
        {
            typed_slots.push(String::from_str(self.slots[i].kind().label()));
            i += 1;
        }
        let mut scratchpads: Vec<(String, String)> = Vec::new();
        let mut j: usize = 0;
        while j < self.scratchpads.len()
            invariant
                j <= self.scratchpads@.len(),
                scratchpads@.len() == j,
                forall|k: int| 0 <= k < j ==> (#[trigger] scratchpads@[k]).0@ == self.scratchpads@[k].0@
                    && scratchpads@[k].1@ == self.scratchpads@[k].1@,
            decreases self.scratchpads@.len() - j,
        {
            scratchpads.push((self.scratchpads[j].0.clone(), self.scratchpads[j].1.clone()));
            j += 1;
        }
        let mut diagnostics: Vec<DiagnosticEntry> = Vec::new();
        let mut k: usize = 0;
        while k < self.diagnostics.len()
            invariant
                k <= self.diagnostics@.len(),
                diagnostics@.len() == k,
                forall|m: int| 0 <= m < k ==> (#[trigger] diagnostics@[m]).message@ == self.diagnostics@[m].message@
                    && diagnostics@[m].level == self.diagnostics@[m].level && diagnostics@[m].timestamp == self.diagnostics@[m].timestamp,
            decreases self.diagnostics@.len() - k,
        {
            let d = &self.diagnostics[k];
            diagnostics.push(DiagnosticEntry { timestamp: d.timestamp, level: d.level, message: d.message.clone() });
            k += 1;
        }
        TaskContextSnapshot { typed_slots, scratchpads, diagnostics }
    }

    /// Appends a line to the diagnostics log.
    pub fn push_diagnostic(&mut self, level: DiagnosticLevel, message: &str, now: u64)
        ensures
            final(self).diagnostics@.len() == old(self).diagnostics@.len() + 1,
            forall|i: int| 0 <= i < old(self).diagnostics@.len() ==> #[trigger] final(self).diagnostics@[i] == old(self).diagnostics@[i],
            final(self).diagnostics@.last().level == level,
            final(self).diagnostics@.last().message@ == message@,
            final(self).diagnostics@.last().timestamp == now,
            final(self).slots == old(self).slots,
            final(self).scratchpads == old(self).scratchpads,
    {
        self.diagnostics.push(
            DiagnosticEntry { timestamp: now, level, message: String::from_str(message) },
        );
    }

    /// The diagnostics log, oldest first.
    pub fn diagnostics(&self) -> (r: &Vec<DiagnosticEntry>)
        ensures
            r == &self.diagnostics,
    {
        &self.diagnostics
    }
}

pub open spec fn pad_of(s: Seq<(String, String)>, ns: Seq<char>) -> Option<Seq<char>> {
    let i = find_pad(s, ns, s.len() as int);
    if i >= 0 {
        Some(s[i].1@)
    } else {
        None
    }
}

pub open spec fn slot_of(s: Seq<Artifact>, k: ArtifactKind) -> Option<Artifact> {
    let i = find_kind(s, k, s.len() as int);
    if i >= 0 {
        Some(s[i])
    } else {
        None
    }
}

proof fn lemma_find_kind_prefix(s: Seq<Artifact>, kind: ArtifactKind, n: int)
    requires
        0 <= n <= s.len(),
    ensures
        find_kind(s, kind, n) == find_kind(s.subrange(0, n), kind, n),
    decreases n,
{
    if n > 0 {
        lemma_find_kind_prefix(s, kind, n - 1);
        lemma_find_kind_same_prefix(s, s.subrange(0, n), kind, n);
    }
}

proof fn lemma_find_kind_same_prefix(s: Seq<Artifact>, t: Seq<Artifact>, kind: ArtifactKind, n: int)
    requires
        0 <= n <= s.len(),
        n <= t.len(),
        forall|k: int| 0 <= k < n ==> s[k] == t[k],
    ensures
        find_kind(s, kind, n) == find_kind(t, kind, n),
        find_kind(t, kind, n) < 0 && n == t.len() && s.len() == n + 1 && s[n].kind_of() == kind ==> find_kind(s, kind, n + 1) == n,
        find_kind(t, kind, n) < 0 && n == t.len() && s.len() == n + 1 && s[n].kind_of() != kind ==> find_kind(s, kind, n + 1) < 0,
        find_kind(t, kind, n) >= 0 && n == t.len() && s.len() == n + 1 ==> find_kind(s, kind, n + 1) == find_kind(t, kind, n),
    decreases n,
{
    if n > 0 {
        lemma_find_kind_same_prefix(s, t, kind, n - 1);
        assert(s[n - 1] == t[n - 1]);
    }
    assert(find_kind(s, kind, n) == find_kind(t, kind, n));
    if s.len() == n + 1 {
        assert(find_kind(s, kind, n + 1) == if find_kind(s, kind, n) >= 0 {
            find_kind(s, kind, n)
        } else if s[n].kind_of() == kind {
            n
        } else {
            -1
        });
    }
}

proof fn lemma_find_kind_update(s: Seq<Artifact>, i: int, a: Artifact, kind: ArtifactKind, n: int)
    requires
        0 <= i < s.len(),
        0 <= n <= s.len(),
        s[i].kind_of() == a.kind_of(),
    ensures
        find_kind(s.update(i, a), kind, n) == find_kind(s, kind, n),
    decreases n,
{
    if n > 0 {
        lemma_find_kind_update(s, i, a, kind, n - 1);
    }
}

proof fn lemma_find_kind_remove(s: Seq<Artifact>, i: int, kind: ArtifactKind)
    requires
        0 <= i < s.len(),
        kinds_unique(s),
    ensures
        kinds_unique(s.remove(i)),
        slot_of(s.remove(i), kind) == (if kind == s[i].kind_of() { None } else { slot_of(s, kind) }),
{
    let t = s.remove(i);
    assert forall|a: int, b: int| 0 <= a < t.len() && 0 <= b < t.len() && a != b implies (#[trigger] t[a]).kind_of() != (#[trigger] t[b]).kind_of() by {
        let a2 = if a < i { a } else { a + 1 };
        let b2 = if b < i { b } else { b + 1 };
        assert(t[a] == s[a2] && t[b] == s[b2]);
    }
    lemma_find_kind_in(s, kind, s.len() as int);
    lemma_find_kind_in(t, kind, t.len() as int);
    let j = find_kind(s, kind, s.len() as int);
    let m = find_kind(t, kind, t.len() as int);
    if m >= 0 {
        let m2 = if m < i { m } else { m + 1 };
        assert(t[m] == s[m2]);
        lemma_find_kind_unique(s, kind, m2);
    }
    if j >= 0 && j != i {
        let j2 = if j < i { j } else { j - 1 };
        assert(t[j2] == s[j]);
        lemma_find_kind_unique(t, kind, j2);
    }
}

proof fn lemma_find_kind_unique(s: Seq<Artifact>, kind: ArtifactKind, j: int)
    requires
        kinds_unique(s),
        0 <= j < s.len(),
        s[j].kind_of() == kind,
    ensures
        find_kind(s, kind, s.len() as int) == j,
{
    lemma_find_kind_in(s, kind, s.len() as int);
    lemma_find_kind_upto(s, kind, j);
}

proof fn lemma_find_kind_upto(s: Seq<Artifact>, kind: ArtifactKind, j: int)
    requires
        kinds_unique(s),
        0 <= j < s.len(),
        s[j].kind_of() == kind,
    ensures
        find_kind(s, kind, j + 1) == j,
        find_kind(s, kind, s.len() as int) == j,
{
    lemma_find_kind_in(s, kind, j);
    assert(find_kind(s, kind, j) < 0) by {
        if find_kind(s, kind, j) >= 0 {
            let x = find_kind(s, kind, j);
            assert(s[x].kind_of() == s[j].kind_of());
        }
    }
    lemma_find_kind_stable(s, kind, j + 1, s.len() as int);
}

proof fn lemma_find_pad_update(s: Seq<(String, String)>, i: int, a: (String, String), ns: Seq<char>, n: int)
    requires
        0 <= i < s.len(),
        0 <= n <= s.len(),
        s[i].0@ == a.0@,
    ensures
        find_pad(s.update(i, a), ns, n) == find_pad(s, ns, n),
    decreases n,
{
    if n > 0 {
        lemma_find_pad_update(s, i, a, ns, n - 1);
    }
}

proof fn lemma_find_pad_same_prefix(s: Seq<(String, String)>, t: Seq<(String, String)>, ns: Seq<char>, n: int)
    requires
        0 <= n <= s.len(),
        n <= t.len(),
        forall|k: int| 0 <= k < n ==> s[k] == t[k],
    ensures
        find_pad(s, ns, n) == find_pad(t, ns, n),
        find_pad(t, ns, n) < 0 && n == t.len() && s.len() == n + 1 && s[n].0@ == ns ==> find_pad(s, ns, n + 1) == n,
        find_pad(t, ns, n) < 0 && n == t.len() && s.len() == n + 1 && s[n].0@ != ns ==> find_pad(s, ns, n + 1) < 0,
        find_pad(t, ns, n) >= 0 && n == t.len() && s.len() == n + 1 ==> find_pad(s, ns, n + 1) == find_pad(t, ns, n),
    decreases n,
{
    if n > 0 {
        lemma_find_pad_same_prefix(s, t, ns, n - 1);
        assert(s[n - 1] == t[n - 1]);
    }
    assert(find_pad(s, ns, n) == find_pad(t, ns, n));
    if s.len() == n + 1 {
        assert(find_pad(s, ns, n + 1) == if find_pad(s, ns, n) >= 0 {
            find_pad(s, ns, n)
        } else if s[n].0@ == ns {
            n
        } else {
            -1
        });
    }
}

proof fn lemma_find_pad_in(s: Seq<(String, String)>, ns: Seq<char>, n: int)
    requires
        0 <= n <= s.len(),
    ensures
        find_pad(s, ns, n) < n,
        find_pad(s, ns, n) >= 0 ==> s[find_pad(s, ns, n)].0@ == ns,
    decreases n,
{
    if n > 0 {
        lemma_find_pad_in(s, ns, n - 1);
    }
}

/// The slots after storing `x`: the slot of its kind now holds it.
pub open spec fn put_spec(s: Seq<Artifact>, x: Artifact) -> Seq<Artifact> {
    let i = find_kind(s, x.kind_of(), s.len() as int);
    if i >= 0 {
        s.update(i, x)
    } else {
        s.push(x)
    }
}

/// Storing an artifact and then reading its kind gives it back unchanged, the other kinds
/// keep what they held, and a context with nothing stored holds no artifact of any kind.
pub proof fn law_typed_round_trip(s: Seq<Artifact>, x: Artifact)
    requires
        kinds_unique(s),
    ensures
        kinds_unique(put_spec(s, x)),
        slot_of(put_spec(s, x), x.kind_of()) == Some(x),
        forall|k: ArtifactKind| k != x.kind_of() ==> #[trigger] slot_of(put_spec(s, x), k) == slot_of(s, k),
        forall|k: ArtifactKind| #[trigger] slot_of(Seq::<Artifact>::empty(), k) is None,
{
    let kind = x.kind_of();
    let t = put_spec(s, x);
    lemma_find_kind_in(s, kind, s.len() as int);
    let i = find_kind(s, kind, s.len() as int);
    if i >= 0 {
        assert forall|a: int, b: int| 0 <= a < t.len() && 0 <= b < t.len() && a != b implies (#[trigger] t[a]).kind_of() != (#[trigger] t[b]).kind_of() by {
            assert(t[a].kind_of() == s[a].kind_of());
            assert(t[b].kind_of() == s[b].kind_of());
        }
        assert forall|k: ArtifactKind| k != kind implies #[trigger] slot_of(t, k) == slot_of(s, k) by {
            lemma_find_kind_update(s, i, x, k, s.len() as int);
            lemma_find_kind_in(s, k, s.len() as int);
            let j = find_kind(s, k, s.len() as int);
            if j >= 0 {
                assert(j != i);
                assert(t[j] == s[j]);
            }
        }
        lemma_find_kind_update(s, i, x, kind, s.len() as int);
    } else {
        assert forall|a: int, b: int| 0 <= a < t.len() && 0 <= b < t.len() && a != b implies (#[trigger] t[a]).kind_of() != (#[trigger] t[b]).kind_of() by {
            if a < s.len() && b < s.len() {
                assert(t[a] == s[a] && t[b] == s[b]);
            } else if a < s.len() {
                assert(t[a] == s[a]);
            } else {
                assert(t[b] == s[b]);
            }
        }
        assert forall|k: ArtifactKind| k != kind implies #[trigger] slot_of(t, k) == slot_of(s, k) by {
            lemma_find_kind_same_prefix(t, s, k, s.len() as int);
            lemma_find_kind_in(s, k, s.len() as int);
            let j = find_kind(s, k, s.len() as int);
            if j >= 0 {
                assert(t[j] == s[j]);
            }
        }
        lemma_find_kind_same_prefix(t, s, kind, s.len() as int);
    }
}

} // verus!
