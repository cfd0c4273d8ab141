//! The host agent, which answers guest proposals, and the pre-commit guard.
use vstd::prelude::*;
use crate::text::{chars_of, contains, contains_vec, hex_digits, hex_digits_exec,
    lowercase_vec, to_lower, string_of, trim, trim_vec, utf8_len, utf8_len_exceeds,
};
use crate::manifest::{
    first_violation, texts, violation_message, LawViolation, Lesson, LessonProposal, LessonView,
    Manifest, ManifestView, ProposalView, ViolationView,
};

verus! {

/// The result of evaluating a guest agent's lesson proposal.
#[derive(Debug, Clone)]
pub enum EvaluationResult {
    Accepted { commit_hash: String },
    Rejected { critique: String },
}

/// The answer to a proposal, with its text.
pub enum Verdict {
    Accepted { commit_hash: Seq<char> },
    Rejected { critique: Seq<char> },
}

impl View for EvaluationResult {
    type V = Verdict;

    open spec fn view(&self) -> Verdict {
        match self {
            EvaluationResult::Accepted { commit_hash } => Verdict::Accepted {
                commit_hash: commit_hash@,
            },
            EvaluationResult::Rejected { critique } => Verdict::Rejected { critique: critique@ },
        }
    }
}

/// The host repository agent — the repository's native intelligence.
pub struct HostAgent {
    pub manifest: Manifest,
    pub commit_count: u64,
    pub rejected_count: u64,
}

/// The agent's manifest and counters.
pub struct AgentView {
    pub manifest: ManifestView,
    pub commit_count: u64,
    pub rejected_count: u64,
}

impl View for HostAgent {
    type V = AgentView;

    open spec fn view(&self) -> AgentView {
        AgentView {
            manifest: self.manifest@,
            commit_count: self.commit_count,
            rejected_count: self.rejected_count,
        }
    }
}

/// The critique with which a proposal is refused, or `None` where it is accepted:
/// first a violated law, then an empty patch, then a rationale of at most ten
/// bytes once trimmed.
pub open spec fn rejection(m: ManifestView, p: ProposalView) -> Option<Seq<char>> {
    match first_violation(m.laws, p.suggested_patch) {
        Some(v) => Some("Rejected: "@ + violation_message(v)),
        None => if trim(p.suggested_patch).len() == 0 {
            Some("Rejected: Empty patch"@)
        } else if utf8_len(trim(p.architectural_rationale)) <= 10 {
            Some("Rejected: Rationale too short — guest must explain reasoning"@)
        } else {
            None
        },
    }
}

/// The lesson recorded when a proposal is accepted at time `t`.
pub open spec fn taught_lesson(p: ProposalView, t: u64) -> LessonView {
    LessonView {
        source: p.guest_agent_id,
        insight: p.architectural_rationale,
        timestamp: t,
        accepted: true,
    }
}

/// The counters have room for the evaluation of `p`.
pub open spec fn can_evaluate(a: AgentView, p: ProposalView) -> bool {
    match rejection(a.manifest, p) {
        Some(_) => a.rejected_count < u64::MAX,
        None => a.commit_count < u64::MAX,
    }
}

/// The agent after evaluating `p` at time `t`, and the answer.
pub open spec fn evaluate(a: AgentView, p: ProposalView, t: u64) -> (AgentView, Verdict) {
    match rejection(a.manifest, p) {
        Some(critique) => (
            AgentView { rejected_count: (a.rejected_count + 1) as u64, ..a },
            Verdict::Rejected { critique },
        ),
        None => {
            let n: u64 = (a.commit_count + 1) as u64;
            (
                AgentView {
                    manifest: ManifestView {
                        lessons: a.manifest.lessons.push(taught_lesson(p, t)),
                        ..a.manifest
                    },
                    commit_count: n,
                    ..a
                },
                Verdict::Accepted { commit_hash: hex_digits(n as nat, 16) },
            )
        },
    }
}

/// How many of `ls` are accepted.
pub open spec fn count_accepted(ls: Seq<LessonView>) -> nat
    decreases ls.len(),
{
    if ls.len() == 0 {
        0
    } else {
        count_accepted(ls.drop_last()) + if ls.last().accepted {
            1nat
        } else {
            0nat
        }
    }
}

/// `SystemTime::elapsed` on the Unix epoch: the whole seconds from the epoch to
/// the system clock's time now, 0 where the clock stands before the epoch.
/// Nothing is stated of the value: it is the time.
#[verifier::external_body]
fn seconds_since_epoch() -> u64 {
    match std::time::UNIX_EPOCH.elapsed() {
        Ok(d) => d.as_secs(),
        Err(_) => 0,
    }
}

impl HostAgent {
    /// Create a new host agent from a REPOSPHERE.md manifest.
    pub fn new(manifest: Manifest) -> (r: Self)
        ensures
            r@ == (AgentView { manifest: manifest@, commit_count: 0, rejected_count: 0 }),
    {
        HostAgent { manifest, commit_count: 0, rejected_count: 0 }
    }

    /// Evaluate a guest agent's lesson proposal, recording an accepted lesson
    /// with the time `timestamp`.
    pub fn evaluate_lesson_at(&mut self, proposal: LessonProposal, timestamp: u64) -> (r:
        EvaluationResult)
        requires
            can_evaluate(old(self)@, proposal@),
        ensures
            (final(self)@, r@) == evaluate(old(self)@, proposal@, timestamp),
    {
        // Step 1: Check immutable laws
        match self.manifest.check_law_violation(&proposal) {
            Err(violation) => {
                self.rejected_count += 1;
                let mut critique = String::from_str("Rejected: ");
                critique.append(violation.message().as_str());
                return EvaluationResult::Rejected { critique };
            },
            Ok(()) => {},
        }
        // Step 2: Validate the patch isn't empty
        let patch = trim_vec(&chars_of(proposal.suggested_patch.as_str()));
        if patch.len() == 0 {
            self.rejected_count += 1;
            return EvaluationResult::Rejected {
                critique: String::from_str("Rejected: Empty patch"),
            };
        }
        // Step 3: Check the rationale is substantive (>10 bytes)
        let rationale = trim_vec(&chars_of(proposal.architectural_rationale.as_str()));
        if !utf8_len_exceeds(&rationale, 10) {
            self.rejected_count += 1;
            return EvaluationResult::Rejected {
                critique: String::from_str(
                    "Rejected: Rationale too short — guest must explain reasoning",
                ),
            };
        }
        // Step 4: Accept and commit
        self.commit_count += 1;
        let commit_hash = string_of(&hex_digits_exec(self.commit_count, 16));
        let lesson = Lesson {
            source: proposal.guest_agent_id,
            insight: proposal.architectural_rationale,
            timestamp,
            accepted: true,
        };
        self.manifest.accept_lesson(lesson);
        EvaluationResult::Accepted { commit_hash }
    }

    /// Evaluate a guest agent's lesson proposal; an accepted lesson is recorded
    /// with the current time.
    pub fn evaluate_lesson(&mut self, proposal: LessonProposal) -> (r: EvaluationResult)
        requires
            can_evaluate(old(self)@, proposal@),
        ensures
            exists|t: u64| (final(self)@, r@) == #[trigger] evaluate(old(self)@, proposal@, t),
    {
        let now: u64 = seconds_since_epoch();
        self.evaluate_lesson_at(proposal, now)
    }

    /// Total lessons accepted.
    pub fn accepted_count(&self) -> (n: usize)
        ensures
            n == count_accepted(self@.manifest.lessons),
    {
        let ghost ls = self@.manifest.lessons;
        let mut n: usize = 0;
        let mut i: usize = 0;
        while i < self.manifest.lessons.len()
            invariant
                ls == self@.manifest.lessons,
                i <= self.manifest.lessons.len(),
                n <= i,
                n == count_accepted(ls.take(i as int)),
            decreases self.manifest.lessons.len() - i,
        {
            assert(ls.take(i + 1).drop_last() =~= ls.take(i as int));
            assert(ls[i as int] == self.manifest.lessons[i as int]@);
            if self.manifest.lessons[i].accepted {
                n += 1;
            }
            i += 1;
        }
        assert(ls.take(i as int) =~= ls);
        n
    }
}

// ─── Commit Guard ────────────────────────────────────────────────────────────

/// Pre-commit validation hook.
pub struct CommitGuard {
    laws: Vec<String>,
}

impl View for CommitGuard {
    type V = Seq<Seq<char>>;

    closed spec fn view(&self) -> Seq<Seq<char>> {
        texts(self.laws@)
    }
}

/// The violations that one law finds in a diff, in order.
pub open spec fn law_diff_violations(law: Seq<char>, diff: Seq<char>) -> Seq<ViolationView> {
    let lower = to_lower(law);
    (if contains(lower, "unsafe"@) && (contains(diff, "unsafe {"@) || contains(diff, "unsafe{"@)) {
        seq![ViolationView { law, violation: "Diff introduces unsafe block"@ }]
    } else {
        Seq::empty()
    }) + (if contains(lower, "unwrap()"@) && contains(diff, ".unwrap()"@) {
        seq![ViolationView { law, violation: "Diff uses .unwrap() — use proper error handling"@ }]
    } else {
        Seq::empty()
    }) + (if contains(lower, "todo"@) && contains(diff, "todo!"@) {
        seq![ViolationView { law, violation: "Diff contains todo!() macro"@ }]
    } else {
        Seq::empty()
    })
}

/// The violations that the laws find in a diff, law by law.
pub open spec fn diff_violations(laws: Seq<Seq<char>>, diff: Seq<char>) -> Seq<ViolationView>
    decreases laws.len(),
{
    if laws.len() == 0 {
        Seq::empty()
    } else {
        diff_violations(laws.drop_last(), diff) + law_diff_violations(laws.last(), diff)
    }
}

/// The models of a list of violations.
pub open spec fn violation_views(v: Seq<LawViolation>) -> Seq<ViolationView> {
    v.map_values(|x: LawViolation| x@)
}

fn push_violation(out: &mut Vec<LawViolation>, law: &String, msg: &str)
    ensures
        violation_views(final(out)@) == violation_views(old(out)@).push(
            ViolationView { law: law@, violation: msg@ },
        ),
{
    let v = LawViolation { law: law.clone(), violation: String::from_str(msg) };
    out.push(v);
    assert(violation_views(final(out)@) =~= violation_views(old(out)@).push(
        ViolationView { law: law@, violation: msg@ },
    ));
}

impl CommitGuard {
    /// A guard holding the manifest's immutable laws.
    pub fn new(manifest: &Manifest) -> (g: Self)
        ensures
            g@ == manifest@.laws,
    {
        let mut laws: Vec<String> = Vec::new();
        let mut i: usize = 0;
        while i < manifest.immutable_laws.len()
            invariant
                i <= manifest.immutable_laws.len(),
                laws@.len() == i,
                texts(laws@) == texts(manifest.immutable_laws@).take(i as int),
            decreases manifest.immutable_laws.len() - i,
        {
            let law = manifest.immutable_laws[i].clone();
            let ghost before = laws@;
            laws.push(law);
            assert(laws@ =~= before.push(law));
            assert(law@ == texts(manifest.immutable_laws@)[i as int]);
            assert forall|j: int| 0 <= j < i implies texts(laws@)[j] == #[trigger] texts(
                manifest.immutable_laws@,
            )[j] by {
                assert(texts(before)[j] == texts(manifest.immutable_laws@).take(i as int)[j]);
            }
            i += 1;
            assert(texts(laws@) =~= texts(manifest.immutable_laws@).take(i as int));
        }
        assert(texts(manifest.immutable_laws@).take(i as int) =~= texts(manifest.immutable_laws@));
        CommitGuard { laws }
    }

    /// Validate a code diff against immutable laws.
    pub fn validate_diff(&self, diff: &str) -> (res: Result<(), Vec<LawViolation>>)
        ensures
            res is Ok <==> diff_violations(self@, diff@).len() == 0,
            res matches Err(vs) ==> violation_views(vs@) == diff_violations(self@, diff@),
    {
        let d = chars_of(diff);
        let mut violations: Vec<LawViolation> = Vec::new();
        let mut i: usize = 0;
        assert(self@.take(0) =~= Seq::<Seq<char>>::empty());
        assert(violation_views(violations@) =~= Seq::<ViolationView>::empty());
        while i < self.laws.len()
            invariant
                i <= self.laws.len(),
                d@ == diff@,
                violation_views(violations@) == diff_violations(self@.take(i as int), diff@),
            decreases self.laws.len() - i,
        {
            let law = &self.laws[i];
            let law_lower = lowercase_vec(&chars_of(law.as_str()));
            let ghost before = violation_views(violations@);
            if contains_vec(&law_lower, &chars_of("unsafe")) && (contains_vec(
                &d,
                &chars_of("unsafe {"),
            ) || contains_vec(&d, &chars_of("unsafe{"))) {
                push_violation(&mut violations, law, "Diff introduces unsafe block");
            }
            if contains_vec(&law_lower, &chars_of("unwrap()")) && contains_vec(
                &d,
                &chars_of(".unwrap()"),
            ) {
                push_violation(
                    &mut violations,
                    law,
                    "Diff uses .unwrap() — use proper error handling",
                );
            }
            if contains_vec(&law_lower, &chars_of("todo")) && contains_vec(&d, &chars_of("todo!")) {
                push_violation(&mut violations, law, "Diff contains todo!() macro");
            }
            assert(self@.take(i + 1).drop_last() =~= self@.take(i as int));
            assert(self@.take(i + 1).last() == law@);
            assert(violation_views(violations@) =~= before + law_diff_violations(law@, diff@));
            i += 1;
        }
        assert(self@.take(i as int) =~= self@);
        if violations.len() == 0 {
            Ok(())
        } else {
            Err(violations)
        }
    }
}

} // verus!
