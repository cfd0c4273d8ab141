# reposphere

A repository modelled as an entity with an identity, immutable architecture
laws, lessons learned and capabilities, kept in its REPOSPHERE.md. The library
reads that markdown, writes it back, holds patches that guest agents propose
and diffs about to be committed to the laws, and keeps count of what it
accepted and refused. Every function of the library is verified with Verus.

- `src/text.rs`: the text operations the rest is built on (lines, trimming,
  prefixes, substrings, lowercase, UTF-8 length, hexadecimal digits), each an
  executable function proved against a specification over `Seq<char>`.
- `src/manifest.rs`: the manifest, how it is read (`Manifest::parse`) and
  written (`Manifest::to_markdown`), and the immutable-law check.
- `src/agent.rs`: the host agent that evaluates proposals, and the commit guard.
- `src/laws.rs`: properties across operations, among them that reading back
  the written markdown gives the manifest back.
- `app/`: serde-serialisable copies of the types, the `Display` of a law
  violation, and the federated lesson packet with its floating-point confidence.
