use reposphere::{CommitGuard, EvaluationResult, HostAgent, LessonProposal, Manifest};

fn sample_manifest_md() -> &'static str {
    r#"# Repository Self-Hosting Manifesto

## Workspace Identity
* Domain: High-speed network protocol libraries in Rust
* Core Objective: Maintain sub-millisecond packet processing pipelines without safety violations
* Active Brain Layer: .si/pincher.bin

## Immutable Architecture Laws
* Never accept an optimization that introduces unsafe blocks
* All asynchronous pipelines must utilize non-blocking ring-buffers
* No .unwrap() in production code paths

## Lessons Learned
* Ring-buffer size 4096 optimal for 10GbE (from self)

## Capabilities
* Packet parsing
* Zero-copy serialization
"#
}

#[test]
fn test_parse_manifest() {
    let manifest = Manifest::parse(sample_manifest_md()).unwrap();
    assert_eq!(manifest.identity.domain, "High-speed network protocol libraries in Rust");
    assert_eq!(manifest.immutable_laws.len(), 3);
    assert!(manifest.immutable_laws[0].to_lowercase().contains("unsafe"));
    assert!(!manifest.lessons.is_empty());
}

#[test]
fn test_parse_minimal_manifest() {
    let md = "# Manifest\n## Workspace Identity\n* Domain: Test\n";
    let manifest = Manifest::parse(md).unwrap();
    assert_eq!(manifest.identity.domain, "Test");
    assert!(manifest.immutable_laws.is_empty());
}

#[test]
fn test_law_violation_unsafe() {
    let manifest = Manifest::parse(sample_manifest_md()).unwrap();
    let proposal = LessonProposal {
        guest_agent_id: "test-agent".to_string(),
        target_component: "parser".to_string(),
        architectural_rationale: "Optimize hot path".to_string(),
        suggested_patch: "let ptr = unsafe { *raw_ptr };".to_string(),
    };
    let result = manifest.check_law_violation(&proposal);
    assert!(result.is_err());
    assert!(result.unwrap_err().violation.contains("unsafe"));
}

#[test]
fn test_law_compliance() {
    let manifest = Manifest::parse(sample_manifest_md()).unwrap();
    let proposal = LessonProposal {
        guest_agent_id: "test-agent".to_string(),
        target_component: "parser".to_string(),
        architectural_rationale: "Use SIMD for parsing".to_string(),
        suggested_patch: "pub fn parse_fast(data: &[u8]) -> Vec<u8> { data.to_vec() }".to_string(),
    };
    assert!(manifest.check_law_violation(&proposal).is_ok());
}

#[test]
fn test_host_agent_accept_lesson() {
    let manifest = Manifest::parse(sample_manifest_md()).unwrap();
    let mut agent = HostAgent::new(manifest);
    let proposal = LessonProposal {
        guest_agent_id: "optimizer-v2".to_string(),
        target_component: "serializer".to_string(),
        architectural_rationale: "Batch serialization reduces syscall overhead by 60%".to_string(),
        suggested_patch: "pub fn batch_serialize(items: &[Item]) -> Vec<u8> { ... }".to_string(),
    };
    let result = agent.evaluate_lesson(proposal);
    assert!(matches!(result, EvaluationResult::Accepted { .. }));
    assert_eq!(agent.commit_count, 1);
    assert!(agent.accepted_count() >= 2); // the manifest's own lesson and the new one
}

#[test]
fn test_host_agent_reject_violation() {
    let manifest = Manifest::parse(sample_manifest_md()).unwrap();
    let mut agent = HostAgent::new(manifest);
    let proposal = LessonProposal {
        guest_agent_id: "unsafe-optimizer".to_string(),
        target_component: "hot-path".to_string(),
        architectural_rationale: "Raw pointers are faster".to_string(),
        suggested_patch: "unsafe { *ptr }".to_string(),
    };
    let result = agent.evaluate_lesson(proposal);
    assert!(matches!(result, EvaluationResult::Rejected { .. }));
    assert_eq!(agent.rejected_count, 1);
}

#[test]
fn test_host_agent_reject_empty_patch() {
    let manifest = Manifest::parse(sample_manifest_md()).unwrap();
    let mut agent = HostAgent::new(manifest);
    let proposal = LessonProposal {
        guest_agent_id: "empty-agent".to_string(),
        target_component: "parser".to_string(),
        architectural_rationale: "Some good reason".to_string(),
        suggested_patch: "   ".to_string(),
    };
    let result = agent.evaluate_lesson(proposal);
    assert!(matches!(result, EvaluationResult::Rejected { .. }));
}

#[test]
fn test_host_agent_reject_short_rationale() {
    let manifest = Manifest::parse(sample_manifest_md()).unwrap();
    let mut agent = HostAgent::new(manifest);
    let proposal = LessonProposal {
        guest_agent_id: "lazy-agent".to_string(),
        target_component: "parser".to_string(),
        architectural_rationale: "faster".to_string(), // 6 chars
        suggested_patch: "fn faster() {}".to_string(),
    };
    let result = agent.evaluate_lesson(proposal);
    assert!(matches!(result, EvaluationResult::Rejected { .. }));
}

#[test]
fn test_commit_guard_blocks_unwrap() {
    let manifest = Manifest::parse(sample_manifest_md()).unwrap();
    let guard = CommitGuard::new(&manifest);
    let diff = "let val = some_option.unwrap();";
    assert!(guard.validate_diff(diff).is_err());
}

#[test]
fn test_commit_guard_allows_clean_code() {
    let manifest = Manifest::parse(sample_manifest_md()).unwrap();
    let guard = CommitGuard::new(&manifest);
    let diff = "let val = some_option.ok_or(Error::NotFound)?;";
    assert!(guard.validate_diff(diff).is_ok());
}

#[test]
fn test_to_markdown_roundtrip() {
    let manifest = Manifest::parse(sample_manifest_md()).unwrap();
    let md = manifest.to_markdown();
    assert!(md.contains("Workspace Identity"));
    assert!(md.contains("Immutable Architecture Laws"));
    assert!(md.contains("Domain:"));
}

#[test]
fn test_manifest_no_laws_allows_anything() {
    let md = "# Manifest\n## Workspace Identity\n* Domain: Wild west\n";
    let manifest = Manifest::parse(md).unwrap();
    let proposal = LessonProposal {
        guest_agent_id: "chaos".to_string(),
        target_component: "all".to_string(),
        architectural_rationale: "Let's add unsafe everywhere".to_string(),
        suggested_patch: "unsafe { std::ptr::null_mut() };".to_string(),
    };
    assert!(manifest.check_law_violation(&proposal).is_ok());
}

#[test]
fn test_multiple_guest_agents_sequential() {
    let manifest = Manifest::parse(sample_manifest_md()).unwrap();
    let mut agent = HostAgent::new(manifest);

    for i in 0..5 {
        let proposal = LessonProposal {
            guest_agent_id: format!("agent-{}", i),
            target_component: "module".to_string(),
            architectural_rationale: format!("Improvement number {} with solid reasoning", i),
            suggested_patch: format!("fn improve_{}() {{ }}", i),
        };
        let result = agent.evaluate_lesson(proposal);
        assert!(matches!(result, EvaluationResult::Accepted { .. }));
    }
    assert_eq!(agent.commit_count, 5);
}
