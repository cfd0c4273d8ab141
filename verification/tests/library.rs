use reposphere::{
    CommitGuard, EvaluationResult, HostAgent, LawViolation, Lesson, LessonProposal, Manifest,
    ManifestIdentity,
};

const SAMPLE: &str = "# Repository Self-Hosting Manifesto\n\n## Workspace Identity\n* Domain: High-speed network protocol libraries in Rust\n* Core Objective: Maintain sub-millisecond packet processing pipelines without safety violations\n* Active Brain Layer: .si/pincher.bin\n\n## Immutable Architecture Laws\n* Never accept an optimization that introduces unsafe blocks\n* All asynchronous pipelines must utilize non-blocking ring-buffers\n* No .unwrap() in production code paths\n\n## Lessons Learned\n* Ring-buffer size 4096 optimal for 10GbE (from self)\n\n## Capabilities\n* Packet parsing\n* Zero-copy serialization\n";

fn proposal(id: &str, rationale: &str, patch: &str) -> LessonProposal {
    LessonProposal {
        guest_agent_id: id.to_string(),
        target_component: "core".to_string(),
        architectural_rationale: rationale.to_string(),
        suggested_patch: patch.to_string(),
    }
}

fn manifest_with_laws(laws: &[&str]) -> Manifest {
    Manifest {
        identity: ManifestIdentity {
            domain: String::new(),
            objective: String::new(),
            brain_layer: String::new(),
        },
        immutable_laws: laws.iter().map(|l| l.to_string()).collect(),
        lessons: Vec::new(),
        capabilities: Vec::new(),
    }
}

fn critique(r: &EvaluationResult) -> String {
    match r {
        EvaluationResult::Rejected { critique } => critique.clone(),
        EvaluationResult::Accepted { .. } => panic!("expected a rejection"),
    }
}

fn commit_hash(r: &EvaluationResult) -> String {
    match r {
        EvaluationResult::Accepted { commit_hash } => commit_hash.clone(),
        EvaluationResult::Rejected { .. } => panic!("expected an acceptance"),
    }
}

#[test]
fn parse_reads_every_section() {
    let m = Manifest::parse(SAMPLE).unwrap();
    assert_eq!(m.identity.domain, "High-speed network protocol libraries in Rust");
    assert_eq!(
        m.identity.objective,
        "Maintain sub-millisecond packet processing pipelines without safety violations"
    );
    assert_eq!(m.identity.brain_layer, ".si/pincher.bin");
    assert_eq!(m.immutable_laws.len(), 3);
    assert_eq!(m.immutable_laws[2], "No .unwrap() in production code paths");
    assert_eq!(m.lessons.len(), 1);
    assert_eq!(m.lessons[0].source, "self");
    assert_eq!(m.lessons[0].insight, "Ring-buffer size 4096 optimal for 10GbE (from self)");
    assert_eq!(m.lessons[0].timestamp, 0);
    assert!(m.lessons[0].accepted);
    assert_eq!(m.capabilities, vec!["Packet parsing", "Zero-copy serialization"]);
}

#[test]
fn parse_markers_crlf_and_labels() {
    let md = "## ## Identity\r\n- Objective: first\r\n* Core Objective: Objective: second\r\n  * Brain: a:b  \r\n## Laws\n* * nested law\n- dashed law\n*not an item\n## Other\n* ignored\n";
    let m = Manifest::parse(md).unwrap();
    assert_eq!(m.identity.objective, "Objective: second");
    assert_eq!(m.identity.brain_layer, "b");
    assert_eq!(m.immutable_laws, vec!["nested law", "dashed law"]);
    assert!(m.capabilities.is_empty());
    assert!(m.lessons.is_empty());
}

#[test]
fn parse_lowercases_unicode_headers() {
    let m = Manifest::parse("## ÜBER LAWS\n* keep it safe\n").unwrap();
    assert_eq!(m.immutable_laws, vec!["keep it safe"]);
    let m = Manifest::parse("## CAPABILITIES\n* parsing\n").unwrap();
    assert_eq!(m.capabilities, vec!["parsing"]);
}

#[test]
fn parse_empty_text() {
    let m = Manifest::parse("").unwrap();
    assert_eq!(m.identity.domain, "");
    assert!(m.immutable_laws.is_empty() && m.lessons.is_empty() && m.capabilities.is_empty());
}

#[test]
fn to_markdown_exact_text() {
    let mut m = manifest_with_laws(&["L1"]);
    m.identity.domain = "D".to_string();
    m.identity.objective = "O".to_string();
    assert_eq!(
        m.to_markdown(),
        "# Repository Self-Hosting Manifesto\n\n## Workspace Identity\n* Domain: D\n* Core Objective: O\n\n## Immutable Architecture Laws\n* L1\n\n"
    );
    m.identity.brain_layer = "B".to_string();
    m.immutable_laws.clear();
    m.lessons.push(Lesson {
        source: "bot".to_string(),
        insight: "idea".to_string(),
        timestamp: 3,
        accepted: false,
    });
    m.capabilities.push("cap".to_string());
    assert_eq!(
        m.to_markdown(),
        "# Repository Self-Hosting Manifesto\n\n## Workspace Identity\n* Domain: D\n* Core Objective: O\n* Active Brain Layer: B\n\n## Lessons Learned\n* [REJECTED] idea (from bot)\n\n## Capabilities\n* cap\n"
    );
}

#[test]
fn markdown_reads_back() {
    let m = Manifest::parse(SAMPLE).unwrap();
    let back = Manifest::parse(&m.to_markdown()).unwrap();
    assert_eq!(back.identity.domain, m.identity.domain);
    assert_eq!(back.identity.objective, m.identity.objective);
    assert_eq!(back.identity.brain_layer, m.identity.brain_layer);
    assert_eq!(back.immutable_laws, m.immutable_laws);
    assert_eq!(back.capabilities, m.capabilities);
    assert_eq!(back.lessons.len(), 1);
    assert_eq!(back.lessons[0].source, "self");
    assert_eq!(
        back.lessons[0].insight,
        "[ACCEPTED] Ring-buffer size 4096 optimal for 10GbE (from self) (from self)"
    );
}

#[test]
fn check_reports_first_violated_law() {
    let m = manifest_with_laws(&["No Mutex anywhere", "Never accept unsafe code"]);
    let v = m.check_law_violation(&proposal("a", "r", "unsafe { Mutex::new(0) }")).unwrap_err();
    assert_eq!(v.law, "No Mutex anywhere");
    assert_eq!(v.violation, "Proposed patch introduces Mutex");
    let v = m.check_law_violation(&proposal("a", "r", "UNSAFE{ x }")).unwrap_err();
    assert_eq!(v.law, "Never accept unsafe code");
    assert_eq!(v.violation, "Proposed patch contains unsafe block");
    assert!(m.check_law_violation(&proposal("a", "r", "let m = mutex;")).is_ok());
}

#[test]
fn check_blocking_and_literal_pattern_laws() {
    let m = manifest_with_laws(&["Pipelines are NonBlocking"]);
    let v = m.check_law_violation(&proposal("a", "r", "rt.block_on(fut)")).unwrap_err();
    assert_eq!(v.violation, "Proposed patch introduces blocking operation");
    assert!(m.check_law_violation(&proposal("a", "r", "std::thread::sleep(d)")).is_err());
    let m = manifest_with_laws(&["Never.*Mutex"]);
    assert!(m.check_law_violation(&proposal("a", "r", "Mutex")).is_err());
    let m = manifest_with_laws(&["Never use a Mutex"]);
    assert!(m.check_law_violation(&proposal("a", "r", "Mutex")).is_ok());
}

#[test]
fn violation_message_text() {
    let v = LawViolation { law: "L".to_string(), violation: "V".to_string() };
    assert_eq!(v.message(), "Law violation: L — V");
}

#[test]
fn evaluate_critiques_are_exact() {
    let mut agent = HostAgent::new(Manifest::parse(SAMPLE).unwrap());
    let r = agent.evaluate_lesson(proposal("x", "Raw pointers are faster", "unsafe { *ptr }"));
    assert_eq!(
        critique(&r),
        "Rejected: Law violation: Never accept an optimization that introduces unsafe blocks — Proposed patch contains unsafe block"
    );
    let r = agent.evaluate_lesson(proposal("x", "Some good reason", "\u{3000}\t\n "));
    assert_eq!(critique(&r), "Rejected: Empty patch");
    let r = agent.evaluate_lesson(proposal("x", "  abcdefghij  ", "fn f() {}"));
    assert_eq!(critique(&r), "Rejected: Rationale too short — guest must explain reasoning");
    assert_eq!(agent.rejected_count, 3);
    assert_eq!(agent.commit_count, 0);
    assert_eq!(agent.manifest.lessons.len(), 1);
}

#[test]
fn evaluate_counts_rationale_in_utf8_bytes() {
    let mut agent = HostAgent::new(manifest_with_laws(&[]));
    let r = agent.evaluate_lesson_at(proposal("x", "ééééé", "fn f() {}"), 1);
    assert!(matches!(r, EvaluationResult::Rejected { .. }));
    let r = agent.evaluate_lesson_at(proposal("x", "éééééé", "fn f() {}"), 1);
    assert!(matches!(r, EvaluationResult::Accepted { .. }));
    let r = agent.evaluate_lesson_at(proposal("x", "abcdefghijk", "fn f() {}"), 1);
    assert!(matches!(r, EvaluationResult::Accepted { .. }));
}

#[test]
fn evaluate_accepts_and_records_lesson() {
    let mut agent = HostAgent::new(manifest_with_laws(&[]));
    let r = agent.evaluate_lesson_at(proposal("guest-1", " A rationale long enough ", "fn f() {}"), 42);
    assert_eq!(commit_hash(&r), "0000000000000001");
    assert_eq!(agent.commit_count, 1);
    assert_eq!(agent.rejected_count, 0);
    let l = &agent.manifest.lessons[0];
    assert_eq!(l.source, "guest-1");
    assert_eq!(l.insight, " A rationale long enough ");
    assert_eq!(l.timestamp, 42);
    assert!(l.accepted);
    agent.commit_count = 0xfe;
    let r = agent.evaluate_lesson_at(proposal("g", "another long rationale", "x"), 0);
    assert_eq!(commit_hash(&r), "00000000000000ff");
    agent.commit_count = 0xfedcba9876543210;
    let r = agent.evaluate_lesson_at(proposal("g", "another long rationale", "x"), 0);
    assert_eq!(commit_hash(&r), "fedcba9876543211");
}

#[test]
fn evaluate_lesson_stamps_current_time() {
    let mut agent = HostAgent::new(manifest_with_laws(&[]));
    agent.evaluate_lesson(proposal("g", "a rationale that is long", "fn f() {}"));
    assert!(agent.manifest.lessons[0].timestamp > 1_600_000_000);
}

#[test]
fn each_evaluation_raises_one_counter() {
    let mut agent = HostAgent::new(Manifest::parse(SAMPLE).unwrap());
    let cases = [
        ("a rationale long enough", "fn ok() {}"),
        ("a rationale long enough", "unsafe { x }"),
        ("short", "fn ok() {}"),
        ("another good rationale", "fn ok2() {}"),
    ];
    for (i, (rationale, patch)) in cases.iter().enumerate() {
        agent.evaluate_lesson_at(proposal("g", rationale, patch), 7);
        assert_eq!(agent.commit_count + agent.rejected_count, (i + 1) as u64);
    }
    assert_eq!(agent.commit_count, 2);
    assert_eq!(agent.rejected_count, 2);
    assert_eq!(agent.accepted_count(), 3);
    assert_eq!(agent.manifest.lessons.len(), 3);
    assert_eq!(agent.manifest.lessons[0].source, "self");
}

#[test]
fn accepted_count_counts_accepted_only() {
    let mut m = manifest_with_laws(&[]);
    for accepted in [true, false, true] {
        m.accept_lesson(Lesson {
            source: "s".to_string(),
            insight: "i".to_string(),
            timestamp: 0,
            accepted,
        });
    }
    assert_eq!(m.lessons.len(), 3);
    assert!(!m.lessons[1].accepted);
    let agent = HostAgent::new(m);
    assert_eq!(agent.accepted_count(), 2);
    assert_eq!(agent.commit_count, 0);
    assert_eq!(agent.rejected_count, 0);
}

#[test]
fn guard_reports_every_violation_in_order() {
    let guard = CommitGuard::new(&manifest_with_laws(&["No unsafe, no unwrap(), no TODO", "No unwrap"]));
    let vs = guard.validate_diff("unsafe{ x.unwrap(); todo!() }").unwrap_err();
    let got: Vec<(&str, &str)> = vs.iter().map(|v| (v.law.as_str(), v.violation.as_str())).collect();
    assert_eq!(
        got,
        vec![
            ("No unsafe, no unwrap(), no TODO", "Diff introduces unsafe block"),
            ("No unsafe, no unwrap(), no TODO", "Diff uses .unwrap() — use proper error handling"),
            ("No unsafe, no unwrap(), no TODO", "Diff contains todo!() macro"),
        ]
    );
    // the diff itself is not lowercased
    assert!(guard.validate_diff("UNSAFE { }").is_ok());
}

#[test]
fn guard_without_laws_allows_anything() {
    let guard = CommitGuard::new(&manifest_with_laws(&[]));
    assert!(guard.validate_diff("unsafe { x.unwrap(); todo!() }").is_ok());
}
