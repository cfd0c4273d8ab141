//! The REPOSPHERE.md manifest: its parts, how it is read from markdown, how it
//! is written back, and how a proposed patch is held to its immutable laws.
use vstd::prelude::*;
use crate::text::{
    after_last, after_last_vec, chars_of, contains, contains_vec, join_lines, lines, lines_vec,
    lowercase_vec, to_lower, starts_with, starts_with_vec, string_of, strip_all_prefix, strip_all_prefix_vec,
    trim, trim_vec,
};

verus! {

// ─── Types ──────────────────────────────────────────────────────────────────

/// Repository identity: domain, objective, brain layer.
#[derive(Debug, Clone)]
pub struct ManifestIdentity {
    pub domain: String,
    pub objective: String,
    pub brain_layer: String,
}

/// A lesson learned by the repository, either self-discovered or taught by a guest.
#[derive(Debug, Clone)]
pub struct Lesson {
    pub source: String,
    pub insight: String,
    pub timestamp: u64,
    pub accepted: bool,
}

/// The parsed REPOSPHERE.md.
#[derive(Debug, Clone)]
pub struct Manifest {
    /// Repository identity: domain, objective, brain layer
    pub identity: ManifestIdentity,
    /// Immutable architecture laws — can never be violated
    pub immutable_laws: Vec<String>,
    /// Lessons learned (append-only)
    pub lessons: Vec<Lesson>,
    /// Capability descriptors
    pub capabilities: Vec<String>,
}

/// A lesson proposed by an external guest agent.
#[derive(Debug, Clone)]
pub struct LessonProposal {
    pub guest_agent_id: String,
    pub target_component: String,
    pub architectural_rationale: String,
    pub suggested_patch: String,
}

/// Details of an immutable law violation.
#[derive(Debug, Clone)]
pub struct LawViolation {
    pub law: String,
    pub violation: String,
}

// ─── Mathematical models ────────────────────────────────────────────────────

/// The text of each identity field.
pub struct IdentityView {
    pub domain: Seq<char>,
    pub objective: Seq<char>,
    pub brain_layer: Seq<char>,
}

/// A lesson with its texts.
pub struct LessonView {
    pub source: Seq<char>,
    pub insight: Seq<char>,
    pub timestamp: u64,
    pub accepted: bool,
}

/// A manifest: its identity, its laws, lessons and capabilities in order.
pub struct ManifestView {
    pub identity: IdentityView,
    pub laws: Seq<Seq<char>>,
    pub lessons: Seq<LessonView>,
    pub capabilities: Seq<Seq<char>>,
}

/// The texts of a proposal.
pub struct ProposalView {
    pub guest_agent_id: Seq<char>,
    pub target_component: Seq<char>,
    pub architectural_rationale: Seq<char>,
    pub suggested_patch: Seq<char>,
}

/// The violated law and the violation found.
pub struct ViolationView {
    pub law: Seq<char>,
    pub violation: Seq<char>,
}

impl View for ManifestIdentity {
    type V = IdentityView;

    open spec fn view(&self) -> IdentityView {
        IdentityView {
            domain: self.domain@,
            objective: self.objective@,
            brain_layer: self.brain_layer@,
        }
    }
}

impl View for Lesson {
    type V = LessonView;

    open spec fn view(&self) -> LessonView {
        LessonView {
            source: self.source@,
            insight: self.insight@,
            timestamp: self.timestamp,
            accepted: self.accepted,
        }
    }
}

/// The texts of a list of strings.
pub open spec fn texts(v: Seq<String>) -> Seq<Seq<char>> {
    v.map_values(|s: String| s@)
}

/// The models of a list of lessons.
pub open spec fn lesson_views(v: Seq<Lesson>) -> Seq<LessonView> {
    v.map_values(|l: Lesson| l@)
}

impl View for Manifest {
    type V = ManifestView;

    open spec fn view(&self) -> ManifestView {
        ManifestView {
            identity: self.identity@,
            laws: texts(self.immutable_laws@),
            lessons: lesson_views(self.lessons@),
            capabilities: texts(self.capabilities@),
        }
    }
}

impl View for LessonProposal {
    type V = ProposalView;

    open spec fn view(&self) -> ProposalView {
        ProposalView {
            guest_agent_id: self.guest_agent_id@,
            target_component: self.target_component@,
            architectural_rationale: self.architectural_rationale@,
            suggested_patch: self.suggested_patch@,
        }
    }
}

impl View for LawViolation {
    type V = ViolationView;

    open spec fn view(&self) -> ViolationView {
        ViolationView { law: self.law@, violation: self.violation@ }
    }
}

// ─── Reading markdown ───────────────────────────────────────────────────────

/// Which part of the manifest the items under a `## ` header (lowercased) fill.
pub enum SectionKind {
    Identity,
    Laws,
    Lessons,
    Capabilities,
    Other,
}

/// The kind of a section by its lowercased name, tested in this order.
pub open spec fn section_kind(section: Seq<char>) -> SectionKind {
    if contains(section, "identity"@) || contains(section, "workspace"@) {
        SectionKind::Identity
    } else if contains(section, "immutable"@) || contains(section, "law"@) {
        SectionKind::Laws
    } else if contains(section, "lesson"@) {
        SectionKind::Lessons
    } else if contains(section, "capabilit"@) {
        SectionKind::Capabilities
    } else {
        SectionKind::Other
    }
}

/// The state of a reader after some lines: the current section name and
/// everything read so far.
pub struct ParseState {
    pub section: Seq<char>,
    pub identity: IdentityView,
    pub laws: Seq<Seq<char>>,
    pub lessons: Seq<Seq<char>>,
    pub capabilities: Seq<Seq<char>>,
}

/// The reader before the first line: no section, everything empty.
pub open spec fn initial_state() -> ParseState {
    ParseState {
        section: Seq::empty(),
        identity: IdentityView {
            domain: Seq::empty(),
            objective: Seq::empty(),
            brain_layer: Seq::empty(),
        },
        laws: Seq::empty(),
        lessons: Seq::empty(),
        capabilities: Seq::empty(),
    }
}

/// An identity item (`Domain:`, `Core Objective:`/`Objective:`,
/// `Active Brain…`/`Brain…`) applied to the identity.
pub open spec fn identity_step(id: IdentityView, item: Seq<char>) -> IdentityView {
    if starts_with(item, "Domain:"@) {
        IdentityView { domain: trim(strip_all_prefix(item, "Domain:"@)), ..id }
    } else if starts_with(item, "Core Objective:"@) || starts_with(item, "Objective:"@) {
        IdentityView {
            objective: trim(
                strip_all_prefix(strip_all_prefix(item, "Core Objective:"@), "Objective:"@),
            ),
            ..id
        }
    } else if starts_with(item, "Active Brain"@) || starts_with(item, "Brain"@) {
        IdentityView { brain_layer: trim(after_last(item, ':')), ..id }
    } else {
        id
    }
}

/// The text of a list item: the trimmed line without its `* ` and `- ` markers.
pub open spec fn item_text(trimmed: Seq<char>) -> Seq<char> {
    strip_all_prefix(strip_all_prefix(trimmed, "* "@), "- "@)
}

/// An item filed under the current section.
pub open spec fn file_item(st: ParseState, item: Seq<char>) -> ParseState {
    match section_kind(st.section) {
        SectionKind::Identity => ParseState { identity: identity_step(st.identity, item), ..st },
        SectionKind::Laws => ParseState { laws: st.laws.push(item), ..st },
        SectionKind::Lessons => ParseState { lessons: st.lessons.push(item), ..st },
        SectionKind::Capabilities => ParseState { capabilities: st.capabilities.push(item), ..st },
        SectionKind::Other => st,
    }
}

/// One line read: a `## ` header switches the section; a `* ` or `- ` item is
/// filed under the current section; any other line is skipped.
pub open spec fn parse_step(st: ParseState, line: Seq<char>) -> ParseState {
    let t = trim(line);
    if starts_with(t, "## "@) {
        ParseState { section: to_lower(strip_all_prefix(t, "## "@)), ..st }
    } else if starts_with(t, "* "@) || starts_with(t, "- "@) {
        file_item(st, item_text(t))
    } else {
        st
    }
}

/// The state after reading `ls` from `st`.
pub open spec fn parse_from(st: ParseState, ls: Seq<Seq<char>>) -> ParseState
    decreases ls.len(),
{
    if ls.len() == 0 {
        st
    } else {
        parse_step(parse_from(st, ls.drop_last()), ls.last())
    }
}

/// A lesson found in the markdown itself.
pub open spec fn own_lesson(insight: Seq<char>) -> LessonView {
    LessonView { source: "self"@, insight, timestamp: 0, accepted: true }
}

/// Lessons found in the markdown itself.
pub open spec fn own_lessons(insights: Seq<Seq<char>>) -> Seq<LessonView> {
    insights.map_values(|i: Seq<char>| own_lesson(i))
}

/// The manifest read from `markdown`.
pub open spec fn parsed(markdown: Seq<char>) -> ManifestView {
    let st = parse_from(initial_state(), lines(markdown));
    ManifestView {
        identity: st.identity,
        laws: st.laws,
        lessons: own_lessons(st.lessons),
        capabilities: st.capabilities,
    }
}

// ─── Writing markdown ───────────────────────────────────────────────────────

/// The list-item line of `x`.
pub open spec fn item_line(x: Seq<char>) -> Seq<char> {
    "* "@ + x
}

/// The text of the item that renders a lesson.
pub open spec fn lesson_text(l: LessonView) -> Seq<char> {
    "["@ + (if l.accepted { "ACCEPTED"@ } else { "REJECTED"@ }) + "] "@ + l.insight + " (from "@
        + l.source + ")"@
}

/// The item lines of `xs`.
pub open spec fn item_lines(xs: Seq<Seq<char>>) -> Seq<Seq<char>> {
    xs.map_values(|x: Seq<char>| item_line(x))
}

/// The item texts that render lessons.
pub open spec fn lesson_texts(ls: Seq<LessonView>) -> Seq<Seq<char>> {
    ls.map_values(|l: LessonView| lesson_text(l))
}

/// The identity section: header, domain, objective, the brain layer where it
/// is not empty, and an empty line.
pub open spec fn identity_lines(id: IdentityView) -> Seq<Seq<char>> {
    seq!["## Workspace Identity"@, "* Domain: "@ + id.domain, "* Core Objective: "@ + id.objective]
        + (if id.brain_layer.len() > 0 {
        seq!["* Active Brain Layer: "@ + id.brain_layer]
    } else {
        Seq::empty()
    }) + seq![Seq::empty()]
}

/// The laws section where there are laws: header, items, an empty line.
pub open spec fn law_lines(laws: Seq<Seq<char>>) -> Seq<Seq<char>> {
    if laws.len() > 0 {
        seq!["## Immutable Architecture Laws"@] + item_lines(laws)
            + seq![Seq::empty()]
    } else {
        Seq::empty()
    }
}

/// The lessons section where there are lessons: header, items, an empty line.
pub open spec fn lesson_lines(lessons: Seq<LessonView>) -> Seq<Seq<char>> {
    if lessons.len() > 0 {
        seq!["## Lessons Learned"@] + item_lines(lesson_texts(lessons)) + seq![
            Seq::empty(),
        ]
    } else {
        Seq::empty()
    }
}

/// The capabilities section where there are capabilities: header and items.
pub open spec fn capability_lines(caps: Seq<Seq<char>>) -> Seq<Seq<char>> {
    if caps.len() > 0 {
        seq!["## Capabilities"@] + item_lines(caps)
    } else {
        Seq::empty()
    }
}

/// The lines of the markdown that renders `m`.
pub open spec fn markdown_lines(m: ManifestView) -> Seq<Seq<char>> {
    seq!["# Repository Self-Hosting Manifesto"@, Seq::empty()] + identity_lines(m.identity)
        + law_lines(m.laws) + lesson_lines(m.lessons) + capability_lines(m.capabilities)
}

// ─── Laws of the manifest ───────────────────────────────────────────────────

/// The violation message that one law finds in a patch, if any.
pub open spec fn law_violation(law: Seq<char>, patch: Seq<char>) -> Option<Seq<char>> {
    let law_lower = to_lower(law);
    let patch_lower = to_lower(patch);
    if contains(law_lower, "never accept"@) && contains(law_lower, "unsafe"@) && (contains(
        patch_lower,
        "unsafe {"@,
    ) || contains(patch_lower, "unsafe{"@)) {
        Some("Proposed patch contains unsafe block"@)
    } else if (contains(law_lower, "no mutex"@) || contains(law_lower, "never.*mutex"@)) && (
    contains(patch, "Mutex"@) || contains(patch, "std::sync::Mutex"@)) {
        Some("Proposed patch introduces Mutex"@)
    } else if (contains(law_lower, "non-blocking"@) || contains(law_lower, "nonblocking"@)) && (
    contains(patch, ".block_on("@) || contains(patch, "std::thread::sleep"@)) {
        Some("Proposed patch introduces blocking operation"@)
    } else {
        None
    }
}

/// The first law, in order, that finds a violation in the patch, with its message.
pub open spec fn first_violation(laws: Seq<Seq<char>>, patch: Seq<char>) -> Option<ViolationView>
    decreases laws.len(),
{
    if laws.len() == 0 {
        None
    } else {
        match law_violation(laws[0], patch) {
            Some(msg) => Some(ViolationView { law: laws[0], violation: msg }),
            None => first_violation(laws.drop_first(), patch),
        }
    }
}

/// The message of a violation: `Law violation: {law} — {violation}`.
pub open spec fn violation_message(v: ViolationView) -> Seq<char> {
    "Law violation: "@ + v.law + " — "@ + v.violation
}

// ─── Executable code ────────────────────────────────────────────────────────

fn section_kind_exec(section: &Vec<char>) -> (k: SectionKind)
    ensures
        k == section_kind(section@),
{
    if contains_vec(section, &chars_of("identity")) || contains_vec(
        section,
        &chars_of("workspace"),
    ) {
        SectionKind::Identity
    } else if contains_vec(section, &chars_of("immutable")) || contains_vec(
        section,
        &chars_of("law"),
    ) {
        SectionKind::Laws
    } else if contains_vec(section, &chars_of("lesson")) {
        SectionKind::Lessons
    } else if contains_vec(section, &chars_of("capabilit")) {
        SectionKind::Capabilities
    } else {
        SectionKind::Other
    }
}

fn law_violation_exec(law: &Vec<char>, patch: &Vec<char>, patch_lower: &Vec<char>) -> (r: Option<
    Vec<char>,
>)
    requires
        patch_lower@ == to_lower(patch@),
    ensures
        match r {
            Some(msg) => law_violation(law@, patch@) == Some(msg@),
            None => law_violation(law@, patch@) is None,
        },
{
    let law_lower = lowercase_vec(law);
    if contains_vec(&law_lower, &chars_of("never accept")) && contains_vec(
        &law_lower,
        &chars_of("unsafe"),
    ) && (contains_vec(patch_lower, &chars_of("unsafe {")) || contains_vec(
        patch_lower,
        &chars_of("unsafe{"),
    )) {
        return Some(chars_of("Proposed patch contains unsafe block"));
    }
    if (contains_vec(&law_lower, &chars_of("no mutex")) || contains_vec(
        &law_lower,
        &chars_of("never.*mutex"),
    )) && (contains_vec(patch, &chars_of("Mutex")) || contains_vec(
        patch,
        &chars_of("std::sync::Mutex"),
    )) {
        return Some(chars_of("Proposed patch introduces Mutex"));
    }
    if (contains_vec(&law_lower, &chars_of("non-blocking")) || contains_vec(
        &law_lower,
        &chars_of("nonblocking"),
    )) && (contains_vec(patch, &chars_of(".block_on(")) || contains_vec(
        patch,
        &chars_of("std::thread::sleep"),
    )) {
        return Some(chars_of("Proposed patch introduces blocking operation"));
    }
    None
}

proof fn lemma_join_push(ls: Seq<Seq<char>>, l: Seq<char>)
    ensures
        join_lines(ls.push(l)) == join_lines(ls) + l + seq!['\n'],
{
    assert(ls.push(l).drop_last() =~= ls);
}

/// Appends `line` and a newline to `md`.
fn write_line(md: &mut String, line: &str, Ghost(ls): Ghost<Seq<Seq<char>>>)
    requires
        old(md)@ == join_lines(ls),
    ensures
        final(md)@ == join_lines(ls.push(line@)),
{
    md.append(line);
    md.append("\n");
    proof {
        reveal_strlit("\n");
        lemma_join_push(ls, line@);
        assert(final(md)@ =~= join_lines(ls) + line@ + seq!['\n']);
    }
}

/// Appends the item line of every string of `items`.
fn write_items(md: &mut String, items: &Vec<String>, Ghost(ls): Ghost<Seq<Seq<char>>>)
    requires
        old(md)@ == join_lines(ls),
    ensures
        final(md)@ == join_lines(
            ls + item_lines(texts(items@)),
        ),
{
    let ghost all = item_lines(texts(items@));
    let mut i: usize = 0;
    assert(ls + all.take(0) =~= ls);
    while i < items.len()
        invariant
            i <= items.len(),
            all == item_lines(texts(items@)),
            md@ == join_lines(ls + all.take(i as int)),
        decreases items.len() - i,
    {
        let mut line = String::from_str("* ");
        line.append(items[i].as_str());
        assert(line@ == all[i as int]);
        write_line(md, line.as_str(), Ghost(ls + all.take(i as int)));
        assert((ls + all.take(i as int)).push(line@) =~= ls + all.take(i + 1));
        i += 1;
    }
    assert(all.take(items.len() as int) =~= all);
}

/// Appends the line of every lesson of `lessons`.
fn write_lessons(md: &mut String, lessons: &Vec<Lesson>, Ghost(ls): Ghost<Seq<Seq<char>>>)
    requires
        old(md)@ == join_lines(ls),
    ensures
        final(md)@ == join_lines(
            ls + item_lines(lesson_texts(lesson_views(lessons@))),
        ),
{
    let ghost all = item_lines(lesson_texts(lesson_views(lessons@)));
    let mut i: usize = 0;
    assert(ls + all.take(0) =~= ls);
    while i < lessons.len()
        invariant
            i <= lessons.len(),
            all == item_lines(lesson_texts(lesson_views(lessons@))),
            md@ == join_lines(ls + all.take(i as int)),
        decreases lessons.len() - i,
    {
        let lesson = &lessons[i];
        let mut line = String::from_str("* ");
        line.append("[");
        if lesson.accepted {
            line.append("ACCEPTED");
        } else {
            line.append("REJECTED");
        }
        line.append("] ");
        line.append(lesson.insight.as_str());
        line.append(" (from ");
        line.append(lesson.source.as_str());
        line.append(")");
        assert(line@ =~= all[i as int]);
        write_line(md, line.as_str(), Ghost(ls + all.take(i as int)));
        assert((ls + all.take(i as int)).push(line@) =~= ls + all.take(i + 1));
        i += 1;
    }
    assert(all.take(lessons.len() as int) =~= all);
}

/// Appends the identity section.
fn write_identity(md: &mut String, id: &ManifestIdentity, Ghost(ls): Ghost<Seq<Seq<char>>>)
    requires
        old(md)@ == join_lines(ls),
    ensures
        final(md)@ == join_lines(ls + identity_lines(id@)),
{
    write_line(md, "## Workspace Identity", Ghost(ls));
    let ghost a = ls.push("## Workspace Identity"@);
    let mut line = String::from_str("* Domain: ");
    line.append(id.domain.as_str());
    write_line(md, line.as_str(), Ghost(a));
    let ghost b = a.push("* Domain: "@ + id@.domain);
    let mut line = String::from_str("* Core Objective: ");
    line.append(id.objective.as_str());
    write_line(md, line.as_str(), Ghost(b));
    let ghost c = b.push("* Core Objective: "@ + id@.objective);
    proof {
        reveal_strlit("");
        assert(""@ =~= Seq::<char>::empty());
    }
    if !id.brain_layer.as_str().is_empty() {
        let mut line = String::from_str("* Active Brain Layer: ");
        line.append(id.brain_layer.as_str());
        write_line(md, line.as_str(), Ghost(c));
        let ghost d = c.push("* Active Brain Layer: "@ + id@.brain_layer);
        write_line(md, "", Ghost(d));
        assert(d.push(""@) =~= ls + identity_lines(id@));
    } else {
        write_line(md, "", Ghost(c));
        assert(c.push(""@) =~= ls + identity_lines(id@));
    }
}

impl LawViolation {
    /// `Law violation: {law} — {violation}`, as the violation is displayed.
    pub fn message(&self) -> (s: String)
        ensures
            s@ == violation_message(self@),
    {
        let mut s = String::from_str("Law violation: ");
        s.append(self.law.as_str());
        s.append(" — ");
        s.append(self.violation.as_str());
        s
    }
}

impl Manifest {
    /// Parse a REPOSPHERE.md markdown string into structured config.
    pub fn parse(markdown: &str) -> (res: Result<Self, String>)
        ensures
            res matches Ok(m) && m@ == parsed(markdown@),
    {
        let text = chars_of(markdown);
        let ls = lines_vec(&text);
        let ghost lines_model = ls@.map_values(|l: Vec<char>| l@);
        let mut section: Vec<char> = Vec::new();
        let mut domain = String::new();
        let mut objective = String::new();
        let mut brain_layer = String::new();
        let mut immutable_laws: Vec<String> = Vec::new();
        let mut lessons: Vec<Lesson> = Vec::new();
        let mut capabilities: Vec<String> = Vec::new();
        let ghost mut own: Seq<Seq<char>> = Seq::empty();
        let mut i: usize = 0;
        assert(lines_model.take(0) =~= Seq::<Seq<char>>::empty());
        assert(texts(immutable_laws@) =~= Seq::<Seq<char>>::empty());
        assert(texts(capabilities@) =~= Seq::<Seq<char>>::empty());
        assert(lesson_views(lessons@) =~= Seq::<LessonView>::empty());
        assert(own_lessons(own) =~= Seq::<LessonView>::empty());
        while i < ls.len()
            invariant
                i <= ls.len(),
                lines_model == ls@.map_values(|l: Vec<char>| l@),
                lines_model == lines(markdown@),
                parse_from(initial_state(), lines_model.take(i as int)) == (ParseState {
                    section: section@,
                    identity: IdentityView {
                        domain: domain@,
                        objective: objective@,
                        brain_layer: brain_layer@,
                    },
                    laws: texts(immutable_laws@),
                    lessons: own,
                    capabilities: texts(capabilities@),
                }),
                lesson_views(lessons@) == own_lessons(own),
            decreases ls.len() - i,
        {
            let line = &ls[i];
            assert(lines_model.take(i + 1).drop_last() =~= lines_model.take(i as int));
            assert(lines_model.take(i + 1).last() == line@);
            let t = trim_vec(line);
            if starts_with_vec(&t, &chars_of("## ")) {
                section = lowercase_vec(&strip_all_prefix_vec(&t, &chars_of("## ")));
            } else if starts_with_vec(&t, &chars_of("* ")) || starts_with_vec(
                &t,
                &chars_of("- "),
            ) {
                let item = strip_all_prefix_vec(
                    &strip_all_prefix_vec(&t, &chars_of("* ")),
                    &chars_of("- "),
                );
                match section_kind_exec(&section) {
                    SectionKind::Identity => {
                        if starts_with_vec(&item, &chars_of("Domain:")) {
                            domain = string_of(
                                &trim_vec(&strip_all_prefix_vec(&item, &chars_of("Domain:"))),
                            );
                        } else if starts_with_vec(&item, &chars_of("Core Objective:"))
                            || starts_with_vec(&item, &chars_of("Objective:")) {
                            objective = string_of(
                                &trim_vec(
                                    &strip_all_prefix_vec(
                                        &strip_all_prefix_vec(&item, &chars_of("Core Objective:")),
                                        &chars_of("Objective:"),
                                    ),
                                ),
                            );
                        } else if starts_with_vec(&item, &chars_of("Active Brain"))
                            || starts_with_vec(&item, &chars_of("Brain")) {
                            brain_layer = string_of(&trim_vec(&after_last_vec(&item, ':')));
                        }
                    },
                    SectionKind::Laws => {
                        immutable_laws.push(string_of(&item));
                        assert(texts(immutable_laws@) =~= parse_from(
                            initial_state(),
                            lines_model.take(i + 1),
                        ).laws);
                    },
                    SectionKind::Lessons => {
                        let lesson = Lesson {
                            source: String::from_str("self"),
                            insight: string_of(&item),
                            timestamp: 0,
                            accepted: true,
                        };
                        let ghost old_lessons = lessons@;
                        assert(lesson@ == own_lesson(item@));
                        lessons.push(lesson);
                        proof {
                            assert(lessons@ =~= old_lessons.push(lesson));
                            let old_own = own;
                            assert(lesson_views(old_lessons) == own_lessons(old_own));
                            assert(lesson_views(old_lessons).len() == old_lessons.len());
                            assert(own_lessons(old_own).len() == old_own.len());
                            own = own.push(item@);
                            assert(lessons@.len() == own.len());
                            assert forall|j: int| 0 <= j < own.len() implies #[trigger] lesson_views(
                                lessons@,
                            )[j] == own_lessons(own)[j] by {
                                if j < old_own.len() {
                                    assert(lesson_views(old_lessons)[j] == own_lessons(old_own)[j]);
                                }
                            }
                            assert(lesson_views(lessons@) =~= own_lessons(own));
                        }
                    },
                    SectionKind::Capabilities => {
                        capabilities.push(string_of(&item));
                        assert(texts(capabilities@) =~= parse_from(
                            initial_state(),
                            lines_model.take(i + 1),
                        ).capabilities);
                    },
                    SectionKind::Other => {},
                }
            }
            i += 1;
        }
        assert(lines_model.take(ls.len() as int) =~= lines_model);
        let identity = ManifestIdentity { domain, objective, brain_layer };
        Ok(Manifest { identity, immutable_laws, lessons, capabilities })
    }

    /// Check if a proposed patch violates any immutable laws.
    pub fn check_law_violation(&self, proposal: &LessonProposal) -> (res: Result<(), LawViolation>)
        ensures
            res is Ok <==> first_violation(self@.laws, proposal@.suggested_patch) is None,
            res matches Err(v) ==> first_violation(self@.laws, proposal@.suggested_patch) == Some(
                v@,
            ),
    {
        let patch = chars_of(proposal.suggested_patch.as_str());
        let patch_lower = lowercase_vec(&patch);
        let ghost laws = self@.laws;
        let mut i: usize = 0;
        assert(laws.skip(0) =~= laws);
        while i < self.immutable_laws.len()
            invariant
                i <= self.immutable_laws.len(),
                laws == texts(self.immutable_laws@),
                patch@ == proposal@.suggested_patch,
                patch_lower@ == to_lower(patch@),
                first_violation(laws, patch@) == first_violation(laws.skip(i as int), patch@),
            decreases self.immutable_laws.len() - i,
        {
            let law = &self.immutable_laws[i];
            let law_chars = chars_of(law.as_str());
            assert(laws.skip(i as int)[0] == law@);
            assert(laws.skip(i as int).drop_first() =~= laws.skip(i + 1));
            match law_violation_exec(&law_chars, &patch, &patch_lower) {
                Some(msg) => {
                    return Err(LawViolation { law: law.clone(), violation: string_of(&msg) });
                },
                None => {},
            }
            i += 1;
        }
        assert(laws.skip(i as int).len() == 0);
        Ok(())
    }

    /// Accept a lesson and append it to the manifest.
    pub fn accept_lesson(&mut self, lesson: Lesson)
        ensures
            final(self)@ == (ManifestView {
                lessons: old(self)@.lessons.push(lesson@),
                ..old(self)@
            }),
    {
        self.lessons.push(lesson);
        assert(lesson_views(self.lessons@) =~= old(self)@.lessons.push(lesson@));
    }

    /// Render the manifest back to REPOSPHERE.md markdown format.
    pub fn to_markdown(&self) -> (md: String)
        ensures
            md@ == join_lines(markdown_lines(self@)),
    {
        let mut md = String::new();
        let ghost ls0: Seq<Seq<char>> = Seq::empty();
        write_line(&mut md, "# Repository Self-Hosting Manifesto", Ghost(ls0));
        let ghost ls1 = ls0.push("# Repository Self-Hosting Manifesto"@);
        write_line(&mut md, "", Ghost(ls1));
        proof {
            reveal_strlit("");
            assert(""@ =~= Seq::<char>::empty());
        }
        let ghost ls2 = ls1.push(Seq::empty());
        assert(ls2 =~= seq!["# Repository Self-Hosting Manifesto"@, Seq::empty()]);
        write_identity(&mut md, &self.identity, Ghost(ls2));
        let ghost ls3 = ls2 + identity_lines(self@.identity);
        if self.immutable_laws.len() != 0 {
            write_line(&mut md, "## Immutable Architecture Laws", Ghost(ls3));
            let ghost a = ls3.push("## Immutable Architecture Laws"@);
            write_items(&mut md, &self.immutable_laws, Ghost(a));
            let ghost b = a + item_lines(texts(self.immutable_laws@));
            write_line(&mut md, "", Ghost(b));
            assert(b.push(""@) =~= ls3 + law_lines(self@.laws));
        } else {
            assert(ls3 =~= ls3 + law_lines(self@.laws));
        }
        let ghost ls4 = ls3 + law_lines(self@.laws);
        if self.lessons.len() != 0 {
            write_line(&mut md, "## Lessons Learned", Ghost(ls4));
            let ghost a = ls4.push("## Lessons Learned"@);
            write_lessons(&mut md, &self.lessons, Ghost(a));
            let ghost b = a + item_lines(lesson_texts(lesson_views(self.lessons@)));
            write_line(&mut md, "", Ghost(b));
            assert(b.push(""@) =~= ls4 + lesson_lines(self@.lessons));
        } else {
            assert(ls4 =~= ls4 + lesson_lines(self@.lessons));
        }
        let ghost ls5 = ls4 + lesson_lines(self@.lessons);
        if self.capabilities.len() != 0 {
            write_line(&mut md, "## Capabilities", Ghost(ls5));
            let ghost a = ls5.push("## Capabilities"@);
            write_items(&mut md, &self.capabilities, Ghost(a));
            assert(a + item_lines(texts(self.capabilities@))
                =~= ls5 + capability_lines(self@.capabilities));
        } else {
            assert(ls5 =~= ls5 + capability_lines(self@.capabilities));
        }
        assert(ls5 + capability_lines(self@.capabilities) =~= markdown_lines(self@));
        md
    }
}

} // verus!
