use vstd::prelude::*;
use vstd::string::StringExecFns;
use crate::pipeline::{copy_opt, copy_strings, opt_str};
use crate::text::{decimal, decimal_string, push_text, same_text};

verus! {

pub open spec fn strs(v: Seq<String>) -> Seq<Seq<char>> {
    v.map_values(|s: String| s@)
}

pub open spec fn in_list(files: Seq<Seq<char>>, f: Seq<char>) -> bool {
    exists|k: int| 0 <= k < files.len() && files[k] == f
}

/// A file edit that a subagent is about to make, or is making.
#[derive(Debug, Clone)]
pub struct PatchRequest {
    pub call_id: String,
    pub agent_name: Option<String>,
    pub conversation_id: Option<String>,
    pub files: Vec<String>,
}

/// Which agent last changed a file with success.
#[derive(Debug, Clone)]
pub struct SubagentFileAttribution {
    pub file_path: String,
    pub agent_name: String,
    pub conversation_id: String,
    pub call_id: String,
    pub timestamp: u64,
}

/// An edit that has begun and not yet ended.
#[derive(Debug, Clone)]
pub struct PatchInProgress {
    pub call_id: String,
    pub agent_name: Option<String>,
    pub conversation_id: Option<String>,
    pub affected_files: Vec<String>,
    pub timestamp: u64,
}

/// An edit that has ended, with or without success.
#[derive(Debug, Clone)]
pub struct CompletedPatch {
    pub call_id: String,
    pub agent_name: Option<String>,
    pub conversation_id: Option<String>,
    pub affected_files: Vec<String>,
    pub success: bool,
    pub timestamp: u64,
}

/// A file that another agent changed earlier in the session.
#[derive(Debug, Clone)]
pub struct FileConflict {
    pub file_path: String,
    pub previous_agent: String,
    pub previous_timestamp: u64,
}

/// What a conflict check finds.
#[derive(Debug, Clone)]
pub enum ConflictDetectionResult {
    Clear,
    Warning { conflicting_files: Vec<FileConflict>, message: String },
    Blocked { conflicting_files: Vec<String>, blocking_agent: String, message: String },
}

/// Counts for status display.
#[derive(Debug, Clone, Copy, PartialEq, Eq, Structural)]
pub struct ConflictTrackerSummary {
    pub total_files_tracked: usize,
    pub active_patches: usize,
    pub total_patches_applied: usize,
    pub successful_patches: usize,
}

// ---------------------------------------------------------------------------
// Model
// ---------------------------------------------------------------------------

/// An attribution: path, agent, conversation, call id, time.
pub type AttrV = (Seq<char>, Seq<char>, Seq<char>, Seq<char>, u64);

/// An active edit: call id, agent, conversation, files, time.
pub type ActiveV = (Seq<char>, Option<Seq<char>>, Option<Seq<char>>, Seq<Seq<char>>, u64);

/// A finished edit: call id, agent, conversation, files, success, time.
pub type DoneV = (Seq<char>, Option<Seq<char>>, Option<Seq<char>>, Seq<Seq<char>>, bool, u64);

pub struct TrackerView {
    pub attributions: Seq<AttrV>,
    pub active: Seq<ActiveV>,
    pub history: Seq<DoneV>,
}

pub open spec fn attr_v(a: SubagentFileAttribution) -> AttrV {
    (a.file_path@, a.agent_name@, a.conversation_id@, a.call_id@, a.timestamp)
}

pub open spec fn active_v(p: PatchInProgress) -> ActiveV {
    (p.call_id@, opt_str(p.agent_name), opt_str(p.conversation_id), strs(p.affected_files@), p.timestamp)
}

pub open spec fn done_v(p: CompletedPatch) -> DoneV {
    (
        p.call_id@,
        opt_str(p.agent_name),
        opt_str(p.conversation_id),
        strs(p.affected_files@),
        p.success,
        p.timestamp,
    )
}

pub open spec fn empty_tracker() -> TrackerView {
    TrackerView { attributions: Seq::empty(), active: Seq::empty(), history: Seq::empty() }
}

/// The first active edit with call id `call` among the first `n`, or -1.
pub open spec fn find_call(s: Seq<ActiveV>, call: Seq<char>, n: int) -> int
    decreases n,
{
    if n <= 0 {
        -1
    } else if find_call(s, call, n - 1) >= 0 {
        find_call(s, call, n - 1)
    } else if s[n - 1].0 == call {
        n - 1
    } else {
        -1
    }
}

/// The first attribution of `path` among the first `n`, or -1.
pub open spec fn find_path(s: Seq<AttrV>, path: Seq<char>, n: int) -> int
    decreases n,
{
    if n <= 0 {
        -1
    } else if find_path(s, path, n - 1) >= 0 {
        find_path(s, path, n - 1)
    } else if s[n - 1].0 == path {
        n - 1
    } else {
        -1
    }
}

pub open spec fn lookup_path(s: Seq<AttrV>, path: Seq<char>) -> int {
    find_path(s, path, s.len() as int)
}

/// After a begin: the edit is active under its call id, replacing an earlier one.
pub open spec fn begin_spec(v: TrackerView, e: ActiveV) -> TrackerView {
    let i = find_call(v.active, e.0, v.active.len() as int);
    TrackerView {
        active: if i >= 0 {
            v.active.update(i, e)
        } else {
            v.active.push(e)
        },
        ..v
    }
}

/// Records `a` as the attribution of its path.
pub open spec fn upsert(s: Seq<AttrV>, a: AttrV) -> Seq<AttrV> {
    let i = lookup_path(s, a.0);
    if i >= 0 {
        s.update(i, a)
    } else {
        s.push(a)
    }
}

/// Attributes the first `n` of `files` to `agent`.
pub open spec fn attribute_all(
    s: Seq<AttrV>,
    files: Seq<Seq<char>>,
    n: int,
    agent: Seq<char>,
    conv: Seq<char>,
    call: Seq<char>,
    ts: u64,
) -> Seq<AttrV>
    decreases n,
{
    if n <= 0 {
        s
    } else {
        upsert(attribute_all(s, files, n - 1, agent, conv, call, ts), (files[n - 1], agent, conv, call, ts))
    }
}

/// After an end: the edit is no longer active; with success its files are attributed to its
/// agent; it joins the history either way. An unknown call id changes nothing.
pub open spec fn end_spec(v: TrackerView, call: Seq<char>, success: bool) -> TrackerView {
    let i = find_call(v.active, call, v.active.len() as int);
    if i < 0 {
        v
    } else {
        let e = v.active[i];
        TrackerView {
            attributions: if success && e.1 is Some {
                attribute_all(
                    v.attributions,
                    e.3,
                    e.3.len() as int,
                    e.1.unwrap(),
                    if e.2 is Some { e.2.unwrap() } else { "main"@ },
                    call,
                    e.4,
                )
            } else {
                v.attributions
            },
            active: v.active.remove(i),
            history: v.history.push((call, e.1, e.2, e.3, success, e.4)),
        }
    }
}

/// Active edit `e` blocks a candidate: another call, by another named agent, on a shared file.
pub open spec fn blocks(e: ActiveV, call: Seq<char>, agent: Option<Seq<char>>, files: Seq<Seq<char>>) -> bool {
    &&& e.0 != call
    &&& e.1 is Some
    &&& agent != e.1
    &&& exists|k: int| 0 <= k < files.len() && in_list(e.3, files[k])
}

pub open spec fn first_blocking(
    s: Seq<ActiveV>,
    n: int,
    call: Seq<char>,
    agent: Option<Seq<char>>,
    files: Seq<Seq<char>>,
) -> int
    decreases n,
{
    if n <= 0 {
        -1
    } else if first_blocking(s, n - 1, call, agent, files) >= 0 {
        first_blocking(s, n - 1, call, agent, files)
    } else if blocks(s[n - 1], call, agent, files) {
        n - 1
    } else {
        -1
    }
}

/// The first `n` candidate files that `e` also touches.
pub open spec fn shared_files(files: Seq<Seq<char>>, n: int, e: ActiveV) -> Seq<Seq<char>>
    decreases n,
{
    if n <= 0 {
        Seq::empty()
    } else {
        shared_files(files, n - 1, e) + if in_list(e.3, files[n - 1]) {
            seq![files[n - 1]]
        } else {
            Seq::empty()
        }
    }
}

/// Among the first `n` candidate files, those last changed by an agent other than `agent`:
/// path, previous agent, time.
pub open spec fn warned_files(attrs: Seq<AttrV>, files: Seq<Seq<char>>, n: int, agent: Seq<char>) -> Seq<
    (Seq<char>, Seq<char>, u64),
>
    decreases n,
{
    if n <= 0 {
        Seq::empty()
    } else {
        let i = lookup_path(attrs, files[n - 1]);
        warned_files(attrs, files, n - 1, agent) + if i >= 0 && attrs[i].1 != agent {
            seq![(files[n - 1], attrs[i].1, attrs[i].4)]
        } else {
            Seq::empty()
        }
    }
}

/// What a check finds: 0 clear, 1 warning, 2 blocked; the files; the blocking agent.
pub type CheckV = (int, Seq<(Seq<char>, Seq<char>, u64)>, Seq<Seq<char>>, Seq<char>);

pub open spec fn check_spec(v: TrackerView, call: Seq<char>, agent: Option<Seq<char>>, files: Seq<Seq<char>>) -> CheckV {
    let b = first_blocking(v.active, v.active.len() as int, call, agent, files);
    if b >= 0 {
        (2, Seq::empty(), shared_files(files, files.len() as int, v.active[b]), v.active[b].1.unwrap())
    } else {
        let w = match agent {
            Some(a) => warned_files(v.attributions, files, files.len() as int, a),
            None => Seq::empty(),
        };
        if w.len() == 0 {
            (0, Seq::empty(), Seq::empty(), Seq::empty())
        } else {
            (1, w, Seq::empty(), Seq::empty())
        }
    }
}

pub open spec fn result_v(r: ConflictDetectionResult) -> CheckV {
    match r {
        ConflictDetectionResult::Clear => (0, Seq::empty(), Seq::empty(), Seq::empty()),
        ConflictDetectionResult::Warning { conflicting_files, .. } => (
            1,
            conflicting_files@.map_values(
                |c: FileConflict| (c.file_path@, c.previous_agent@, c.previous_timestamp),
            ),
            Seq::empty(),
            Seq::empty(),
        ),
        ConflictDetectionResult::Blocked { conflicting_files, blocking_agent, .. } => (
            2,
            Seq::empty(),
            strs(conflicting_files@),
            blocking_agent@,
        ),
    }
}

/// The message that goes with a result.
pub open spec fn message_ok(r: ConflictDetectionResult, agent: Option<Seq<char>>) -> bool {
    match r {
        ConflictDetectionResult::Clear => true,
        ConflictDetectionResult::Warning { conflicting_files, message } => message@ == "Warning: "@
            + decimal(conflicting_files@.len()) + " files were previously modified by different subagents in this session"@,
        ConflictDetectionResult::Blocked { conflicting_files, blocking_agent, message } => message@
            == "Cannot apply patch: "@ + blocking_agent@ + " is currently modifying "@ + decimal(
            conflicting_files@.len(),
        ) + " files that "@ + (if agent is Some { agent.unwrap() } else { "main agent"@ })
            + " is trying to edit"@,
    }
}

// ---------------------------------------------------------------------------
// Tracker
// ---------------------------------------------------------------------------

/// Tracks which subagent last changed which file, and which edits are under way.
pub struct SubagentConflictTracker {
    pub attributions: Vec<SubagentFileAttribution>,
    pub active: Vec<PatchInProgress>,
    pub history: Vec<CompletedPatch>,
}

impl SubagentConflictTracker {
    pub open spec fn view(&self) -> TrackerView {
        TrackerView {
            attributions: self.attributions@.map_values(|a: SubagentFileAttribution| attr_v(a)),
            active: self.active@.map_values(|p: PatchInProgress| active_v(p)),
            history: self.history@.map_values(|p: CompletedPatch| done_v(p)),
        }
    }

    pub fn new() -> (r: Self)
        ensures
            r.view() == empty_tracker(),
            tracker_wf(r.view()),
    {
        let r = SubagentConflictTracker {
            attributions: Vec::new(),
            active: Vec::new(),
            history: Vec::new(),
        };
        assert(r.view().attributions =~= Seq::<AttrV>::empty());
        assert(r.view().active =~= Seq::<ActiveV>::empty());
        assert(r.view().history =~= Seq::<DoneV>::empty());
        r
    }

    fn find_active(&self, call: &str) -> (r: Option<usize>)
        ensures
            match r {
                Some(i) => i as int == find_call(self.view().active, call@, self.active@.len() as int) && i < self.active@.len(),
                None => find_call(self.view().active, call@, self.active@.len() as int) < 0,
            },
    {
        let ghost s = self.view().active;
        let mut i: usize = 0;
        while i < self.active.len()
            invariant
                i <= self.active@.len(),
                s == self.view().active,
                find_call(s, call@, i as int) < 0,
            decreases self.active@.len() - i,
        {
            if same_text(self.active[i].call_id.as_str(), call) {
                assert(s[i as int].0 == call@);
                proof {
                    lemma_find_call_stable(s, call@, i + 1, s.len() as int);
                }
                return Some(i);
            }
            i += 1;
        }
        None
    }

    fn find_attribution(&self, path: &str) -> (r: Option<usize>)
        ensures
            match r {
                Some(i) => i as int == lookup_path(self.view().attributions, path@) && i < self.attributions@.len(),
                None => lookup_path(self.view().attributions, path@) < 0,
            },
    {
        let ghost s = self.view().attributions;
        let mut i: usize = 0;
        while i < self.attributions.len()
            invariant
                i <= self.attributions@.len(),
                s == self.view().attributions,
                find_path(s, path@, i as int) < 0,
            decreases self.attributions@.len() - i,
        {
            if same_text(self.attributions[i].file_path.as_str(), path) {
                proof {
                    lemma_find_path_stable(s, path@, i + 1, s.len() as int);
                }
                return Some(i);
            }
            i += 1;
        }
        None
    }

    /// Checks a candidate edit against the edits under way, then against who last changed
    /// its files.
    pub fn check_conflicts(&self, req: &PatchRequest) -> (r: ConflictDetectionResult)
        ensures
            result_v(r) == check_spec(self.view(), req.call_id@, opt_str(req.agent_name), strs(req.files@)),
            message_ok(r, opt_str(req.agent_name)),
    {
        let ghost v = self.view();
        let ghost files = strs(req.files@);
        let ghost agent = opt_str(req.agent_name);
        // edits under way by other agents
        let mut b: usize = 0;
        while b < self.active.len()
            invariant
                b <= self.active@.len(),
                v == self.view(),
                files == strs(req.files@),
                agent == opt_str(req.agent_name),
                first_blocking(v.active, b as int, req.call_id@, agent, files) < 0,
            decreases self.active@.len() - b,
        {
            let e = &self.active[b];
            if blocks_exec(e, req) {
                proof {
                    lemma_first_blocking_stable(v.active, b + 1, v.active.len() as int, req.call_id@, agent, files);
                }
                let shared = shared_exec(&req.files, e);
                let blocker = match &e.agent_name {
                    Some(a) => a.clone(),
                    None => String::new(),
                };
                let mut message = String::from_str("Cannot apply patch: ");
                push_text(&mut message, blocker.as_str());
                push_text(&mut message, " is currently modifying ");
                let count = decimal_string(shared.len() as u64);
                push_text(&mut message, count.as_str());
                push_text(&mut message, " files that ");
                match &req.agent_name {
                    Some(a) => push_text(&mut message, a.as_str()),
                    None => push_text(&mut message, "main agent"),
                }
                push_text(&mut message, " is trying to edit");
                return ConflictDetectionResult::Blocked {
                    conflicting_files: shared,
                    blocking_agent: blocker,
                    message,
                };
            }
            b += 1;
        }
        // files last changed by another agent
        let current = match &req.agent_name {
            Some(a) => a,
            None => {
                return ConflictDetectionResult::Clear;
            },
        };
        let mut warned: Vec<FileConflict> = Vec::new();
        let mut i: usize = 0;
        while i < req.files.len()
            invariant
                i <= req.files@.len(),
                v == self.view(),
                files == strs(req.files@),
                warned@.map_values(|c: FileConflict| (c.file_path@, c.previous_agent@, c.previous_timestamp))
                    == warned_files(v.attributions, files, i as int, current@),
            decreases req.files@.len() - i,
        {
            let ghost before = warned@;
            match self.find_attribution(req.files[i].as_str()) {
                Some(k) => {
                    let a = &self.attributions[k];
                    if !same_text(a.agent_name.as_str(), current.as_str()) {
                        warned.push(
                            FileConflict {
                                file_path: req.files[i].clone(),
                                previous_agent: a.agent_name.clone(),
                                previous_timestamp: a.timestamp,
                            },
                        );
                    }
                },
                None => {},
            }
            assert(warned@.map_values(|c: FileConflict| (c.file_path@, c.previous_agent@, c.previous_timestamp))
                =~= warned_files(v.attributions, files, i + 1, current@));
            i += 1;
        }
        if warned.len() == 0 {
            return ConflictDetectionResult::Clear;
        }
        let mut message = String::from_str("Warning: ");
        let count = decimal_string(warned.len() as u64);
        push_text(&mut message, count.as_str());
        push_text(
            &mut message,
            " files were previously modified by different subagents in this session",
        );
        ConflictDetectionResult::Warning { conflicting_files: warned, message }
    }

    /// Registers an edit as under way, at time `now`.
    pub fn record_patch_begin(&mut self, req: &PatchRequest, now: u64)
        requires
            tracker_wf(old(self).view()),
        ensures
            tracker_wf(final(self).view()),
            final(self).view() == begin_spec(
                old(self).view(),
                (req.call_id@, opt_str(req.agent_name), opt_str(req.conversation_id), strs(req.files@), now),
            ),
    {
        proof {
            lemma_begin_wf(
                self.view(),
                (req.call_id@, opt_str(req.agent_name), opt_str(req.conversation_id), strs(req.files@), now),
            );
        }
        let e = PatchInProgress {
            call_id: req.call_id.clone(),
            agent_name: copy_opt(&req.agent_name),
            conversation_id: copy_opt(&req.conversation_id),
            affected_files: copy_strings(&req.files),
            timestamp: now,
        };
        let ghost ev = active_v(e);
        let ghost old_v = self.view();
        match self.find_active(req.call_id.as_str()) {
            Some(i) => {
                self.active.set(i, e);
                assert(self.view().active =~= old_v.active.update(i as int, ev));
            },
            None => {
                self.active.push(e);
                assert(self.view().active =~= old_v.active.push(ev));
            },
        }
        assert(self.view().attributions =~= old_v.attributions);
        assert(self.view().history =~= old_v.history);
    }

    fn upsert_attribution(&mut self, a: SubagentFileAttribution)
        ensures
            final(self).view() == (TrackerView {
                attributions: upsert(old(self).view().attributions, attr_v(a)),
                ..old(self).view()
            }),
    {
        let ghost old_v = self.view();
        let ghost av = attr_v(a);
        match self.find_attribution(a.file_path.as_str()) {
            Some(i) => {
                self.attributions.set(i, a);
                assert(self.view().attributions =~= old_v.attributions.update(i as int, av));
            },
            None => {
                self.attributions.push(a);
                assert(self.view().attributions =~= old_v.attributions.push(av));
            },
        }
        assert(self.view().active =~= old_v.active);
        assert(self.view().history =~= old_v.history);
    }

    /// Ends an edit: it leaves the active set, its files are attributed to its agent when it
    /// succeeded, and it joins the history.
    pub fn record_patch_end(&mut self, call_id: &str, success: bool)
        requires
            tracker_wf(old(self).view()),
        ensures
            tracker_wf(final(self).view()),
            final(self).view() == end_spec(old(self).view(), call_id@, success),
    {
        proof {
            lemma_end_wf(self.view(), call_id@, success);
        }
        let ghost old_v = self.view();
        let i = match self.find_active(call_id) {
            Some(i) => i,
            None => {
                return;
            },
        };
        let e = self.active.remove(i);
        let ghost ev = active_v(e);
        assert(ev == old_v.active[i as int]);
        assert(self.view().active =~= old_v.active.remove(i as int));
        if success {
            match &e.agent_name {
                Some(agent) => {
                    let conv = match &e.conversation_id {
                        Some(c) => c.clone(),
                        None => String::from_str("main"),
                    };
                    let mut k: usize = 0;
                    while k < e.affected_files.len()
                        invariant
                            k <= e.affected_files@.len(),
                            ev == active_v(e),
                            self.view().active == old_v.active.remove(i as int),
                            self.view().history == old_v.history,
                            self.view().attributions == attribute_all(
                                old_v.attributions,
                                ev.3,
                                k as int,
                                agent@,
                                conv@,
                                call_id@,
                                e.timestamp,
                            ),
                        decreases e.affected_files@.len() - k,
                    {
                        self.upsert_attribution(
                            SubagentFileAttribution {
                                file_path: e.affected_files[k].clone(),
                                agent_name: agent.clone(),
                                conversation_id: conv.clone(),
                                call_id: String::from_str(call_id),
                                timestamp: e.timestamp,
                            },
                        );
                        k += 1;
                    }
                },
                None => {},
            }
        }
        let ghost mid = self.view();
        self.history.push(
            CompletedPatch {
                call_id: String::from_str(call_id),
                agent_name: e.agent_name,
                conversation_id: e.conversation_id,
                affected_files: e.affected_files,
                success,
                timestamp: e.timestamp,
            },
        );
        assert(self.view().history =~= mid.history.push((call_id@, ev.1, ev.2, ev.3, success, ev.4)));
        assert(self.view().active =~= mid.active);
        assert(self.view().attributions =~= mid.attributions);
    }

    /// The attribution of `path`, if any edit of it succeeded.
    pub fn get_file_attribution(&self, path: &str) -> (r: Option<SubagentFileAttribution>)
        ensures
            match r {
                Some(a) => lookup_path(self.view().attributions, path@) >= 0 && attr_v(a)
                    == self.view().attributions[lookup_path(self.view().attributions, path@)],
                None => lookup_path(self.view().attributions, path@) < 0,
            },
    {
        match self.find_attribution(path) {
            Some(i) => {
                let a = &self.attributions[i];
                Some(
                    SubagentFileAttribution {
                        file_path: a.file_path.clone(),
                        agent_name: a.agent_name.clone(),
                        conversation_id: a.conversation_id.clone(),
                        call_id: a.call_id.clone(),
                        timestamp: a.timestamp,
                    },
                )
            },
            None => None,
        }
    }

    /// The finished edits of `agent`, for rolling them back.
    pub fn get_patches_by_agent(&self, agent: &str) -> (r: Vec<CompletedPatch>)
        ensures
            r@.map_values(|p: CompletedPatch| done_v(p)) == patches_by(self.view().history, agent@, self.history@.len() as int),
    {
        let ghost h = self.view().history;
        let mut out: Vec<CompletedPatch> = Vec::new();
        let mut i: usize = 0;
        while i < self.history.len()
            invariant
                i <= self.history@.len(),
                h == self.view().history,
                out@.map_values(|p: CompletedPatch| done_v(p)) == patches_by(h, agent@, i as int),
            decreases self.history@.len() - i,
        {
            let p = &self.history[i];
            let ghost before = out@;
            assert(h[i as int] == done_v(*p));
            let mine = match &p.agent_name {
                Some(a) => same_text(a.as_str(), agent),
                None => false,
            };
            if mine {
                out.push(
                    CompletedPatch {
                        call_id: p.call_id.clone(),
                        agent_name: copy_opt(&p.agent_name),
                        conversation_id: copy_opt(&p.conversation_id),
                        affected_files: copy_strings(&p.affected_files),
                        success: p.success,
                        timestamp: p.timestamp,
                    },
                );
                assert(out@.map_values(|p: CompletedPatch| done_v(p)) =~= before.map_values(|p: CompletedPatch| done_v(p)).push(h[i as int]));
            }
            assert(out@.map_values(|p: CompletedPatch| done_v(p)) =~= patches_by(h, agent@, i + 1));
            i += 1;
        }
        out
    }

    /// Forgets everything.
    pub fn clear(&mut self)
        ensures
            tracker_wf(final(self).view()),
            final(self).view() == empty_tracker(),
    {
        self.attributions = Vec::new();
        self.active = Vec::new();
        self.history = Vec::new();
        assert(self.view().attributions =~= Seq::<AttrV>::empty());
        assert(self.view().active =~= Seq::<ActiveV>::empty());
        assert(self.view().history =~= Seq::<DoneV>::empty());
    }

    /// Counts of attributed files, active edits, finished edits and successful ones.
    pub fn get_summary(&self) -> (r: ConflictTrackerSummary)
        ensures
            r.total_files_tracked == self.attributions@.len(),
            r.active_patches == self.active@.len(),
            r.total_patches_applied == self.history@.len(),
            r.successful_patches == successes(self.history@, self.history@.len() as int),
    {
        let mut ok: usize = 0;
        let mut i: usize = 0;
        while i < self.history.len()
            invariant
                i <= self.history@.len(),
                ok == successes(self.history@, i as int),
                ok <= i,
            decreases self.history@.len() - i,
        {
            if self.history[i].success {
                ok += 1;
            }
            i += 1;
        }
        ConflictTrackerSummary {
            total_files_tracked: self.attributions.len(),
            active_patches: self.active.len(),
            total_patches_applied: self.history.len(),
            successful_patches: ok,
        }
    }
}

/// The finished edits by `agent`, in the order they ended.
pub open spec fn patches_by(h: Seq<DoneV>, agent: Seq<char>, n: int) -> Seq<DoneV>
    decreases n,
{
    if n <= 0 {
        Seq::empty()
    } else {
        patches_by(h, agent, n - 1) + if h[n - 1].1 == Some(agent) {
            seq![h[n - 1]]
        } else {
            Seq::empty()
        }
    }
}

impl Default for SubagentConflictTracker {
    fn default() -> (r: Self)
        ensures
            tracker_wf(r.view()),
            r.view() == empty_tracker(),
    {
        SubagentConflictTracker::new()
    }
}

pub open spec fn successes(h: Seq<CompletedPatch>, n: int) -> nat
    decreases n,
{
    if n <= 0 {
        0
    } else {
        successes(h, n - 1) + if h[n - 1].success { 1nat } else { 0nat }
    }
}

fn has_exec(files: &Vec<String>, f: &str) -> (r: bool)
    ensures
        r == in_list(strs(files@), f@),
{
    let mut i: usize = 0;
    while i < files.len()
        invariant
            i <= files@.len(),
            forall|k: int| 0 <= k < i ==> strs(files@)[k] != f@,
        decreases files@.len() - i,
    {
        if same_text(files[i].as_str(), f) {
            assert(strs(files@)[i as int] == f@);
            return true;
        }
        i += 1;
    }
    false
}

fn blocks_exec(e: &PatchInProgress, req: &PatchRequest) -> (r: bool)
    ensures
        r == blocks(active_v(*e), req.call_id@, opt_str(req.agent_name), strs(req.files@)),
{
    if same_text(e.call_id.as_str(), req.call_id.as_str()) {
        return false;
    }
    let a = match &e.agent_name {
        Some(a) => a,
        None => {
            return false;
        },
    };
    match &req.agent_name {
        Some(c) => {
            if same_text(c.as_str(), a.as_str()) {
                return false;
            }
        },
        None => {},
    }
    assert(opt_str(req.agent_name) != active_v(*e).1);
    let ghost files = strs(req.files@);
    let mut k: usize = 0;
    while k < req.files.len()
        invariant
            k <= req.files@.len(),
            files == strs(req.files@),
            active_v(*e).0 != req.call_id@,
            active_v(*e).1 is Some,
            opt_str(req.agent_name) != active_v(*e).1,
            forall|m: int| 0 <= m < k ==> !in_list(strs(e.affected_files@), #[trigger] files[m]),
        decreases req.files@.len() - k,
    {
        if has_exec(&e.affected_files, req.files[k].as_str()) {
            assert(in_list(active_v(*e).3, files[k as int]));
            assert(0 <= k < files.len() && in_list(active_v(*e).3, files[k as int]));
            return true;
        }
        k += 1;
    }
    false
}

fn shared_exec(files: &Vec<String>, e: &PatchInProgress) -> (r: Vec<String>)
    ensures
        strs(r@) == shared_files(strs(files@), files@.len() as int, active_v(*e)),
{
    let mut r: Vec<String> = Vec::new();
    let mut i: usize = 0;
    while i < files.len()
        invariant
            i <= files@.len(),
            strs(r@) == shared_files(strs(files@), i as int, active_v(*e)),
        decreases files@.len() - i,
    {
        if has_exec(&e.affected_files, files[i].as_str()) {
            r.push(files[i].clone());
        }
        assert(strs(r@) =~= shared_files(strs(files@), i + 1, active_v(*e)));
        i += 1;
    }
    r
}

/// Nothing among the first `n` edits blocks exactly when no one of them does.
proof fn lemma_first_blocking_none(
    s: Seq<ActiveV>,
    n: int,
    call: Seq<char>,
    agent: Option<Seq<char>>,
    files: Seq<Seq<char>>,
)
    requires
        0 <= n <= s.len(),
    ensures
        first_blocking(s, n, call, agent, files) < 0 <==> forall|k: int| 0 <= k < n ==> !blocks(#[trigger] s[k], call, agent, files),
        first_blocking(s, n, call, agent, files) < n,
    decreases n,
{
    if n > 0 {
        lemma_first_blocking_none(s, n - 1, call, agent, files);
    }
}

/// An edit that begins while no edit under way blocks a candidate becomes the one that
/// blocks it, when it is by another agent, under another call id, and touches one of its
/// files: the check names the files both touch and the agent of that edit. This holds from
/// any state of the tracker.
pub proof fn law_active_edit_blocks(
    v: TrackerView,
    e: ActiveV,
    call: Seq<char>,
    agent: Option<Seq<char>>,
    files: Seq<Seq<char>>,
)
    requires
        tracker_wf(v),
        blocks(e, call, agent, files),
        first_blocking(v.active, v.active.len() as int, call, agent, files) < 0,
    ensures
        check_spec(begin_spec(v, e), call, agent, files) == (
            2int,
            Seq::<(Seq<char>, Seq<char>, u64)>::empty(),
            shared_files(files, files.len() as int, e),
            e.1.unwrap(),
        ),
{
    let n = v.active.len() as int;
    let t = begin_spec(v, e).active;
    lemma_find_call_in(v.active, e.0, n);
    lemma_first_blocking_none(v.active, n, call, agent, files);
    let i = find_call(v.active, e.0, n);
    if i >= 0 {
        assert forall|k: int| 0 <= k < i implies !blocks(#[trigger] t[k], call, agent, files) by {
            assert(t[k] == v.active[k]);
        }
        lemma_first_blocking_none(t, i, call, agent, files);
        assert(t[i] == e);
        assert(first_blocking(t, i + 1, call, agent, files) == i);
        lemma_first_blocking_stable(t, i + 1, t.len() as int, call, agent, files);
    } else {
        assert forall|k: int| 0 <= k < n implies !blocks(#[trigger] t[k], call, agent, files) by {
            assert(t[k] == v.active[k]);
        }
        lemma_first_blocking_none(t, n, call, agent, files);
        assert(t[n] == e);
        assert(first_blocking(t, n + 1, call, agent, files) == n);
    }
}

proof fn lemma_find_path_update(s: Seq<AttrV>, i: int, a: AttrV, p: Seq<char>, n: int)
    requires
        0 <= i < s.len(),
        0 <= n <= s.len(),
        s[i].0 == a.0,
    ensures
        find_path(s.update(i, a), p, n) == find_path(s, p, n),
    decreases n,
{
    if n > 0 {
        lemma_find_path_update(s, i, a, p, n - 1);
    }
}

proof fn lemma_find_path_prefix(s: Seq<AttrV>, t: Seq<AttrV>, p: Seq<char>, n: int)
    requires
        0 <= n <= s.len(),
        n <= t.len(),
        forall|k: int| 0 <= k < n ==> s[k] == t[k],
    ensures
        find_path(s, p, n) == find_path(t, p, n),
    decreases n,
{
    if n > 0 {
        lemma_find_path_prefix(s, t, p, n - 1);
        assert(s[n - 1] == t[n - 1]);
    }
}

/// After `upsert`, the path of `a` finds `a`, and every other path finds what it found.
proof fn lemma_upsert_lookup(s: Seq<AttrV>, a: AttrV, p: Seq<char>)
    ensures
        ({
            let t = upsert(s, a);
            let i = lookup_path(t, p);
            let i0 = lookup_path(s, p);
            &&& p == a.0 ==> i >= 0 && t[i] == a
            &&& p != a.0 ==> (i >= 0) == (i0 >= 0) && (i >= 0 ==> t[i] == s[i0])
        }),
{
    let t = upsert(s, a);
    let j = lookup_path(s, a.0);
    lemma_find_path_in(s, a.0, s.len() as int);
    lemma_find_path_in(s, p, s.len() as int);
    if j >= 0 {
        lemma_find_path_update(s, j, a, p, s.len() as int);
        let i0 = lookup_path(s, p);
        if p != a.0 && i0 >= 0 {
            assert(i0 != j);
        }
    } else {
        lemma_find_path_prefix(t, s, p, s.len() as int);
        assert(find_path(t, p, t.len() as int) == if find_path(t, p, s.len() as int) >= 0 {
            find_path(t, p, s.len() as int)
        } else if t[s.len() as int].0 == p {
            s.len() as int
        } else {
            -1
        });
        let i0 = lookup_path(s, p);
        if i0 >= 0 {
            assert(t[i0] == s[i0]);
        }
    }
}

/// After attributing the first `n` files, each of them is attributed to the agent.
proof fn lemma_attribute_all_lookup(
    s: Seq<AttrV>,
    files: Seq<Seq<char>>,
    n: int,
    agent: Seq<char>,
    conv: Seq<char>,
    call: Seq<char>,
    ts: u64,
    k: int,
)
    requires
        0 <= k < n <= files.len(),
    ensures
        ({
            let t = attribute_all(s, files, n, agent, conv, call, ts);
            lookup_path(t, files[k]) >= 0 && t[lookup_path(t, files[k])] == (files[k], agent, conv, call, ts)
        }),
    decreases n,
{
    let prev = attribute_all(s, files, n - 1, agent, conv, call, ts);
    let a = (files[n - 1], agent, conv, call, ts);
    lemma_upsert_lookup(prev, a, files[k]);
    if k < n - 1 && files[k] != files[n - 1] {
        lemma_attribute_all_lookup(s, files, n - 1, agent, conv, call, ts, k);
    }
}

/// Once an edit under way ends with success, another agent's edit of one of its files draws
/// a warning that cites the first agent and the time its edit began, provided no edit under
/// way blocks it. This holds from any state of the tracker.
pub proof fn law_finished_edit_warns(
    v: TrackerView,
    call1: Seq<char>,
    call: Seq<char>,
    agent: Seq<char>,
    file: Seq<char>,
)
    requires
        tracker_wf(v),
        find_call(v.active, call1, v.active.len() as int) >= 0,
        ({
            let e = v.active[find_call(v.active, call1, v.active.len() as int)];
            &&& e.1 is Some
            &&& e.1.unwrap() != agent
            &&& in_list(e.3, file)
        }),
        first_blocking(
            end_spec(v, call1, true).active,
            end_spec(v, call1, true).active.len() as int,
            call,
            Some(agent),
            seq![file],
        ) < 0,
    ensures
        ({
            let e = v.active[find_call(v.active, call1, v.active.len() as int)];
            check_spec(end_spec(v, call1, true), call, Some(agent), seq![file]) == (
                1int,
                seq![(file, e.1.unwrap(), e.4)],
                Seq::<Seq<char>>::empty(),
                Seq::<char>::empty(),
            )
        }),
{
    let i = find_call(v.active, call1, v.active.len() as int);
    let e = v.active[i];
    let conv = if e.2 is Some { e.2.unwrap() } else { "main"@ };
    let t = end_spec(v, call1, true);
    let k = choose|k: int| 0 <= k < e.3.len() && e.3[k] == file;
    lemma_attribute_all_lookup(v.attributions, e.3, e.3.len() as int, e.1.unwrap(), conv, call1, e.4, k);
    let fs = seq![file];
    assert(fs[0] == file);
    assert(warned_files(t.attributions, fs, 0, agent) =~= Seq::<(Seq<char>, Seq<char>, u64)>::empty());
    assert(warned_files(t.attributions, fs, 1, agent) =~= seq![(file, e.1.unwrap(), e.4)]);
}

/// An edit of a file under way by one agent blocks another agent's edit of that file, naming
/// the file and the first agent; once the first edit succeeds and ends, a third agent's edit
/// of the file draws a warning (not a block) that cites the first agent's attribution.
pub proof fn law_conflict_blocking(
    call1: Seq<char>,
    agent1: Seq<char>,
    conv1: Option<Seq<char>>,
    started: u64,
    call2: Seq<char>,
    agent2: Seq<char>,
    call3: Seq<char>,
    agent3: Seq<char>,
    file: Seq<char>,
)
    requires
        call1 != call2,
        agent1 != agent2,
        agent1 != agent3,
    ensures
        ({
            let t1 = begin_spec(empty_tracker(), (call1, Some(agent1), conv1, seq![file], started));
            let t2 = end_spec(t1, call1, true);
            &&& check_spec(t1, call2, Some(agent2), seq![file]) == (
                2int,
                Seq::<(Seq<char>, Seq<char>, u64)>::empty(),
                seq![file],
                agent1,
            )
            &&& check_spec(t2, call3, Some(agent3), seq![file]) == (
                1int,
                seq![(file, agent1, started)],
                Seq::<Seq<char>>::empty(),
                Seq::<char>::empty(),
            )
        }),
{
    let e = (call1, Some(agent1), conv1, seq![file], started);
    let fs = seq![file];
    assert(find_call(Seq::<ActiveV>::empty(), call1, 0) == -1);
    let t1 = begin_spec(empty_tracker(), e);
    assert(t1.active =~= seq![e]);
    assert(e.3[0] == file);
    assert(in_list(e.3, file));
    assert(fs[0] == file);
    assert(in_list(e.3, fs[0]));
    assert(blocks(e, call2, Some(agent2), fs));
    assert(first_blocking(t1.active, 0, call2, Some(agent2), fs) == -1);
    assert(t1.active[0] == e);
    assert(first_blocking(t1.active, 1, call2, Some(agent2), fs) == 0);
    assert(shared_files(fs, 0, e) =~= Seq::<Seq<char>>::empty());
    assert(shared_files(fs, 1, e) =~= fs);
    assert(find_call(t1.active, call1, 0) == -1);
    assert(find_call(t1.active, call1, 1) == 0);
    let t2 = end_spec(t1, call1, true);
    let conv = if conv1 is Some { conv1.unwrap() } else { "main"@ };
    let a = (file, agent1, conv, call1, started);
    assert(find_path(Seq::<AttrV>::empty(), file, 0) == -1);
    assert(upsert(Seq::<AttrV>::empty(), a) =~= seq![a]);
    assert(attribute_all(Seq::<AttrV>::empty(), e.3, 0, agent1, conv, call1, started) == Seq::<AttrV>::empty());
    assert(attribute_all(Seq::<AttrV>::empty(), e.3, 1, agent1, conv, call1, started) =~= seq![a]);
    assert(t2.attributions =~= seq![a]);
    assert(t2.active =~= Seq::<ActiveV>::empty());
    assert(first_blocking(t2.active, 0, call3, Some(agent3), fs) == -1);
    assert(find_path(t2.attributions, file, 0) == -1);
    assert(find_path(t2.attributions, file, 1) == 0);
    assert(lookup_path(t2.attributions, file) == 0);
    assert(warned_files(t2.attributions, fs, 0, agent3) =~= Seq::<(Seq<char>, Seq<char>, u64)>::empty());
    assert(warned_files(t2.attributions, fs, 1, agent3) =~= seq![(file, agent1, started)]);
}


// ---------------------------------------------------------------------------
// Keys are unique
// ---------------------------------------------------------------------------

/// No two attributions are for one path, and no two active edits share a call id.
pub open spec fn tracker_wf(v: TrackerView) -> bool {
    &&& forall|i: int, j: int|
        0 <= i < v.attributions.len() && 0 <= j < v.attributions.len() && i != j
            ==> (#[trigger] v.attributions[i]).0 != (#[trigger] v.attributions[j]).0
    &&& forall|i: int, j: int|
        0 <= i < v.active.len() && 0 <= j < v.active.len() && i != j
            ==> (#[trigger] v.active[i]).0 != (#[trigger] v.active[j]).0
}

proof fn lemma_find_call_in(s: Seq<ActiveV>, call: Seq<char>, n: int)
    requires
        0 <= n <= s.len(),
    ensures
        find_call(s, call, n) < n,
        find_call(s, call, n) >= 0 ==> s[find_call(s, call, n)].0 == call,
        find_call(s, call, n) < 0 ==> forall|k: int| 0 <= k < n ==> (#[trigger] s[k]).0 != call,
    decreases n,
{
    if n > 0 {
        lemma_find_call_in(s, call, n - 1);
    }
}

proof fn lemma_find_path_in(s: Seq<AttrV>, path: Seq<char>, n: int)
    requires
        0 <= n <= s.len(),
    ensures
        find_path(s, path, n) < n,
        find_path(s, path, n) >= 0 ==> s[find_path(s, path, n)].0 == path,
        find_path(s, path, n) < 0 ==> forall|k: int| 0 <= k < n ==> (#[trigger] s[k]).0 != path,
    decreases n,
{
    if n > 0 {
        lemma_find_path_in(s, path, n - 1);
    }
}

proof fn lemma_upsert_unique(s: Seq<AttrV>, a: AttrV)
    requires
        forall|i: int, j: int| 0 <= i < s.len() && 0 <= j < s.len() && i != j ==> (#[trigger] s[i]).0 != (#[trigger] s[j]).0,
    ensures
        ({
            let t = upsert(s, a);
            forall|i: int, j: int| 0 <= i < t.len() && 0 <= j < t.len() && i != j ==> (#[trigger] t[i]).0 != (#[trigger] t[j]).0
        }),
{
    lemma_find_path_in(s, a.0, s.len() as int);
    let t = upsert(s, a);
    let k = lookup_path(s, a.0);
    assert forall|i: int, j: int| 0 <= i < t.len() && 0 <= j < t.len() && i != j implies (#[trigger] t[i]).0 != (#[trigger] t[j]).0 by {
        if k >= 0 {
            assert(t[i].0 == s[i].0 && t[j].0 == s[j].0);
        } else {
            if i < s.len() && j < s.len() {
                assert(t[i] == s[i] && t[j] == s[j]);
            } else if i < s.len() {
                assert(t[i] == s[i]);
            } else {
                assert(t[j] == s[j]);
            }
        }
    }
}

proof fn lemma_attribute_all_unique(
    s: Seq<AttrV>,
    files: Seq<Seq<char>>,
    n: int,
    agent: Seq<char>,
    conv: Seq<char>,
    call: Seq<char>,
    ts: u64,
)
    requires
        forall|i: int, j: int| 0 <= i < s.len() && 0 <= j < s.len() && i != j ==> (#[trigger] s[i]).0 != (#[trigger] s[j]).0,
    ensures
        ({
            let t = attribute_all(s, files, n, agent, conv, call, ts);
            forall|i: int, j: int| 0 <= i < t.len() && 0 <= j < t.len() && i != j ==> (#[trigger] t[i]).0 != (#[trigger] t[j]).0
        }),
    decreases n,
{
    if n > 0 {
        lemma_attribute_all_unique(s, files, n - 1, agent, conv, call, ts);
        lemma_upsert_unique(attribute_all(s, files, n - 1, agent, conv, call, ts), (files[n - 1], agent, conv, call, ts));
    }
}

/// Beginning an edit keeps keys unique.
pub proof fn lemma_begin_wf(v: TrackerView, e: ActiveV)
    requires
        tracker_wf(v),
    ensures
        tracker_wf(begin_spec(v, e)),
{
    lemma_find_call_in(v.active, e.0, v.active.len() as int);
    let t = begin_spec(v, e).active;
    let k = find_call(v.active, e.0, v.active.len() as int);
    assert forall|i: int, j: int| 0 <= i < t.len() && 0 <= j < t.len() && i != j implies (#[trigger] t[i]).0 != (#[trigger] t[j]).0 by {
        if k >= 0 {
            assert(t[i].0 == v.active[i].0 && t[j].0 == v.active[j].0);
        } else {
            if i < v.active.len() && j < v.active.len() {
                assert(t[i] == v.active[i] && t[j] == v.active[j]);
            } else if i < v.active.len() {
                assert(t[i] == v.active[i]);
            } else {
                assert(t[j] == v.active[j]);
            }
        }
    }
}

/// Ending an edit keeps keys unique.
pub proof fn lemma_end_wf(v: TrackerView, call: Seq<char>, success: bool)
    requires
        tracker_wf(v),
    ensures
        tracker_wf(end_spec(v, call, success)),
{
    lemma_find_call_in(v.active, call, v.active.len() as int);
    let i0 = find_call(v.active, call, v.active.len() as int);
    if i0 >= 0 {
        let e = v.active[i0];
        let conv = if e.2 is Some { e.2.unwrap() } else { "main"@ };
        if success && e.1 is Some {
            lemma_attribute_all_unique(v.attributions, e.3, e.3.len() as int, e.1.unwrap(), conv, call, e.4);
        }
        let t = v.active.remove(i0);
        assert forall|i: int, j: int| 0 <= i < t.len() && 0 <= j < t.len() && i != j implies (#[trigger] t[i]).0 != (#[trigger] t[j]).0 by {
            let i2 = if i < i0 { i } else { i + 1 };
            let j2 = if j < i0 { j } else { j + 1 };
            assert(t[i] == v.active[i2] && t[j] == v.active[j2]);
        }
    }
}

proof fn lemma_find_call_stable(s: Seq<ActiveV>, call: Seq<char>, n: int, m: int)
    requires
        1 <= n <= m <= s.len(),
        find_call(s, call, n) >= 0,
    ensures
        find_call(s, call, m) == find_call(s, call, n),
    decreases m - n,
{
    if m > n {
        lemma_find_call_stable(s, call, n, m - 1);
    }
}

proof fn lemma_find_path_stable(s: Seq<AttrV>, path: Seq<char>, n: int, m: int)
    requires
        1 <= n <= m <= s.len(),
        find_path(s, path, n) >= 0,
    ensures
        find_path(s, path, m) == find_path(s, path, n),
    decreases m - n,
{
    if m > n {
        lemma_find_path_stable(s, path, n, m - 1);
    }
}

proof fn lemma_first_blocking_stable(
    s: Seq<ActiveV>,
    n: int,
    m: int,
    call: Seq<char>,
    agent: Option<Seq<char>>,
    files: Seq<Seq<char>>,
)
    requires
        1 <= n <= m <= s.len(),
        first_blocking(s, n, call, agent, files) >= 0,
    ensures
        first_blocking(s, m, call, agent, files) == first_blocking(s, n, call, agent, files),
    decreases m - n,
{
    if m > n {
        lemma_first_blocking_stable(s, n, m - 1, call, agent, files);
    }
}

} // verus!
