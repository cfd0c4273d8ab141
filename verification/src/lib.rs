//! A repository modelled as an entity with an identity, immutable architecture
//! laws, lessons learned and capabilities, all read from and written to its
//! REPOSPHERE.md; a host agent that answers the lessons guest agents propose,
//! and a pre-commit guard that holds diffs to the laws.
pub mod text;
pub mod manifest;
pub mod agent;
pub mod laws;

pub use agent::{CommitGuard, EvaluationResult, HostAgent};
pub use manifest::{LawViolation, Lesson, LessonProposal, Manifest, ManifestIdentity};
