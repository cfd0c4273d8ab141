//! Properties that span several operations of the library.
use vstd::prelude::*;
use crate::text::{
    hex_digit,
    after_last, ascii_lowercase, all_ascii, char_utf8_len, contains, hex_digits, to_lower,
    utf8_len, strip_cr, is_ws, join_lines, line_scan, lines,
    occurs_at, starts_with, strip_all_prefix, trim, trim_end, trim_start,
};
use vstd::utf8::{char_is_scalar, encode_scalar, encode_utf8};
use crate::agent::{
    can_evaluate, count_accepted, diff_violations, evaluate, law_diff_violations, AgentView, Verdict,
};
use crate::manifest::{
    file_item, first_violation, identity_step, law_violation, initial_state, item_line, item_lines, item_text, parse_from, parse_step,
    section_kind, identity_lines, capability_lines, law_lines, lesson_lines, lesson_text,
    lesson_texts, markdown_lines, own_lessons, parsed, IdentityView, LessonView, ManifestView,
    ParseState, ProposalView, SectionKind, ViolationView, violation_message,
};

verus! {

// ─── Lines ──────────────────────────────────────────────────────────────────

/// `s` holds no newline.
pub open spec fn single_line(s: Seq<char>) -> bool {
    forall|k: int| 0 <= k < s.len() ==> s[k] != '\n'
}

/// `s` is one line that `str::lines` gives back unchanged after its `\n`.
pub open spec fn plain_line(s: Seq<char>) -> bool {
    single_line(s) && !(s.len() > 0 && s.last() == '\r')
}

proof fn lemma_scan_append(a: Seq<char>, l: Seq<char>)
    requires
        single_line(l),
    ensures
        line_scan(a + l) == (line_scan(a).0, line_scan(a).1 + l),
    decreases l.len(),
{
    if l.len() == 0 {
        assert(a + l =~= a);
        assert(line_scan(a).1 + l =~= line_scan(a).1);
    } else {
        let l2 = l.drop_last();
        lemma_scan_append(a, l2);
        assert((a + l).drop_last() =~= a + l2);
        assert((a + l).last() == l.last());
        assert((line_scan(a).1 + l2).push(l.last()) =~= line_scan(a).1 + l);
    }
}

proof fn lemma_scan_join(ls: Seq<Seq<char>>)
    requires
        forall|i: int| 0 <= i < ls.len() ==> plain_line(#[trigger] ls[i]),
    ensures
        line_scan(join_lines(ls)) == (ls, Seq::<char>::empty()),
    decreases ls.len(),
{
    if ls.len() == 0 {
        assert(join_lines(ls).len() == 0);
        assert(ls =~= Seq::<Seq<char>>::empty());
    } else {
        let prev = ls.drop_last();
        let l = ls.last();
        assert(plain_line(ls[ls.len() - 1]));
        lemma_scan_join(prev);
        let a = join_lines(prev);
        lemma_scan_append(a, l);
        assert(Seq::<char>::empty() + l =~= l);
        let j = join_lines(ls);
        assert(j =~= (a + l).push('\n'));
        assert(j.drop_last() =~= a + l);
        assert(prev.push(l) =~= ls);
    }
}

/// Reading the lines of their joined text gives the lines back.
pub proof fn lemma_lines_join(ls: Seq<Seq<char>>)
    requires
        forall|i: int| 0 <= i < ls.len() ==> plain_line(#[trigger] ls[i]),
    ensures
        lines(join_lines(ls)) == ls,
{
    lemma_scan_join(ls);
}

// ─── Reading, piece by piece ────────────────────────────────────────────────

proof fn lemma_parse_concat(st: ParseState, a: Seq<Seq<char>>, b: Seq<Seq<char>>)
    ensures
        parse_from(st, a + b) == parse_from(parse_from(st, a), b),
    decreases b.len(),
{
    if b.len() == 0 {
        assert(a + b =~= a);
    } else {
        lemma_parse_concat(st, a, b.drop_last());
        assert((a + b).drop_last() =~= a + b.drop_last());
        assert((a + b).last() == b.last());
    }
}

proof fn lemma_parse_push(st: ParseState, a: Seq<Seq<char>>, l: Seq<char>)
    ensures
        parse_from(st, a.push(l)) == parse_step(parse_from(st, a), l),
{
    assert(a.push(l).drop_last() =~= a);
}

proof fn lemma_trim_id(s: Seq<char>)
    requires
        s.len() > 0,
        !is_ws(s[0]),
        !is_ws(s.last()),
    ensures
        trim(s) == s,
{
}

proof fn lemma_strip_once(p: Seq<char>, x: Seq<char>)
    requires
        p.len() > 0,
        !starts_with(x, p),
    ensures
        strip_all_prefix(p + x, p) == x,
{
    assert((p + x).take(p.len() as int) =~= p);
    assert((p + x).skip(p.len() as int) =~= x);
    assert(strip_all_prefix(x, p) == x);
    assert(strip_all_prefix(p + x, p) == strip_all_prefix((p + x).skip(p.len() as int), p));
}

/// `x` is the text of a list item that reads back as itself.
pub open spec fn item_ok(x: Seq<char>) -> bool {
    &&& x.len() > 0
    &&& !is_ws(x.last())
    &&& single_line(x)
    &&& !starts_with(x, "* "@)
    &&& !starts_with(x, "- "@)
}

proof fn lemma_item_step(st: ParseState, x: Seq<char>)
    requires
        item_ok(x),
    ensures
        parse_step(st, item_line(x)) == file_item(st, x),
        plain_line(item_line(x)),
{
    reveal_strlit("* ");
    reveal_strlit("- ");
    reveal_strlit("## ");
    let line = item_line(x);
    assert(line[0] == '*');
    assert(line.last() == x.last());
    lemma_trim_id(line);
    assert(!starts_with(line, "## "@)) by {
        if starts_with(line, "## "@) {
            assert(line.take(3)[0] == '#');
        }
    }
    assert(line.take(2) =~= "* "@);
    lemma_strip_once("* "@, x);
    assert(strip_all_prefix(x, "- "@) == x);
    assert forall|k: int| 0 <= k < line.len() implies line[k] != '\n' by {
        if k >= 2 {
            assert(line[k] == x[k - 2]);
        }
    }
}

/// The state after filing `xs` as items of the current section, which is
/// not the identity section.
pub open spec fn with_items(st: ParseState, xs: Seq<Seq<char>>) -> ParseState {
    match section_kind(st.section) {
        SectionKind::Laws => ParseState { laws: st.laws + xs, ..st },
        SectionKind::Lessons => ParseState { lessons: st.lessons + xs, ..st },
        SectionKind::Capabilities => ParseState { capabilities: st.capabilities + xs, ..st },
        _ => st,
    }
}

proof fn lemma_items(st: ParseState, xs: Seq<Seq<char>>)
    requires
        !(section_kind(st.section) is Identity),
        forall|i: int| 0 <= i < xs.len() ==> item_ok(#[trigger] xs[i]),
    ensures
        parse_from(st, item_lines(xs)) == with_items(st, xs),
        forall|i: int|
            0 <= i < xs.len() ==> plain_line(
                #[trigger] item_lines(xs)[i],
            ),
    decreases xs.len(),
{
    let ys = item_lines(xs);
    if xs.len() == 0 {
        assert(ys =~= Seq::<Seq<char>>::empty());
        assert(st.laws + xs =~= st.laws);
        assert(st.lessons + xs =~= st.lessons);
        assert(st.capabilities + xs =~= st.capabilities);
    } else {
        let prev = xs.drop_last();
        let x = xs.last();
        assert(item_ok(xs[xs.len() - 1]));
        assert forall|i: int| 0 <= i < prev.len() implies item_ok(#[trigger] prev[i]) by {
            assert(item_ok(xs[i]));
        }
        lemma_items(st, prev);
        assert(ys =~= item_lines(prev).push(item_line(x)));
        lemma_parse_push(st, item_lines(prev), item_line(x));
        lemma_item_step(with_items(st, prev), x);
        assert((st.laws + prev).push(x) =~= st.laws + xs);
        assert((st.lessons + prev).push(x) =~= st.lessons + xs);
        assert((st.capabilities + prev).push(x) =~= st.capabilities + xs);
        assert forall|i: int| 0 <= i < xs.len() implies plain_line(#[trigger] ys[i]) by {
            assert(item_ok(xs[i]));
            lemma_item_step(st, xs[i]);
        }
    }
}

proof fn lemma_absent(s: Seq<char>, p: Seq<char>, k: int)
    requires
        0 <= k < p.len(),
        forall|i: int| 0 <= i < s.len() ==> s[i] != p[k],
    ensures
        !contains(s, p),
{
    assert forall|i: int| !occurs_at(s, p, i) by {
        if occurs_at(s, p, i) {
            assert(s.subrange(i, i + p.len())[k] == p[k]);
        }
    }
}

proof fn lemma_header_step(st: ParseState, x: Seq<char>)
    requires
        x.len() > 0,
        all_ascii(x),
        single_line(x),
        !is_ws(x[0]),
        !is_ws(x.last()),
        x[0] != '#',
    ensures
        parse_step(st, "## "@ + x) == (ParseState { section: ascii_lowercase(x), ..st }),
        plain_line("## "@ + x),
{
    reveal_strlit("## ");
    let line = "## "@ + x;
    assert(line[0] == '#');
    assert(line.last() == x.last());
    lemma_trim_id(line);
    assert(line.take(3) =~= "## "@);
    assert(!starts_with(x, "## "@)) by {
        if starts_with(x, "## "@) {
            assert(x.take(3)[0] == '#');
        }
    }
    lemma_strip_once("## "@, x);
    assert forall|k: int| 0 <= k < line.len() implies line[k] != '\n' by {
        if k >= 3 {
            assert(line[k] == x[k - 3]);
        }
    }
}

proof fn lemma_kind_identity()
    ensures
        section_kind(ascii_lowercase("Workspace Identity"@)) is Identity,
{
    reveal_strlit("Workspace Identity");
    reveal_strlit("identity");
    let s = ascii_lowercase("Workspace Identity"@);
    assert(s.subrange(10, 18) =~= "identity"@);
    assert(occurs_at(s, "identity"@, 10));
}

proof fn lemma_kind_laws()
    ensures
        section_kind(ascii_lowercase("Immutable Architecture Laws"@)) is Laws,
{
    reveal_strlit("Immutable Architecture Laws");
    reveal_strlit("identity");
    reveal_strlit("workspace");
    reveal_strlit("immutable");
    let s = ascii_lowercase("Immutable Architecture Laws"@);
    lemma_absent(s, "identity"@, 7);
    lemma_absent(s, "workspace"@, 3);
    assert(s.subrange(0, 9) =~= "immutable"@);
    assert(occurs_at(s, "immutable"@, 0));
}

proof fn lemma_kind_lessons()
    ensures
        section_kind(ascii_lowercase("Lessons Learned"@)) is Lessons,
{
    reveal_strlit("Lessons Learned");
    reveal_strlit("identity");
    reveal_strlit("workspace");
    reveal_strlit("immutable");
    reveal_strlit("law");
    reveal_strlit("lesson");
    let s = ascii_lowercase("Lessons Learned"@);
    lemma_absent(s, "identity"@, 7);
    lemma_absent(s, "workspace"@, 0);
    lemma_absent(s, "immutable"@, 0);
    lemma_absent(s, "law"@, 2);
    assert(s.subrange(0, 6) =~= "lesson"@);
    assert(occurs_at(s, "lesson"@, 0));
}

proof fn lemma_kind_capabilities()
    ensures
        section_kind(ascii_lowercase("Capabilities"@)) is Capabilities,
{
    reveal_strlit("Capabilities");
    reveal_strlit("identity");
    reveal_strlit("workspace");
    reveal_strlit("immutable");
    reveal_strlit("law");
    reveal_strlit("lesson");
    reveal_strlit("capabilit");
    let s = ascii_lowercase("Capabilities"@);
    lemma_absent(s, "identity"@, 7);
    lemma_absent(s, "workspace"@, 0);
    lemma_absent(s, "immutable"@, 1);
    lemma_absent(s, "law"@, 2);
    lemma_absent(s, "lesson"@, 4);
    assert(s.subrange(0, 9) =~= "capabilit"@);
    assert(occurs_at(s, "capabilit"@, 0));
}

/// `f` is an identity field that reads back as itself: one line, and no
/// whitespace at either end.
pub open spec fn field_ok(f: Seq<char>) -> bool {
    single_line(f) && (f.len() == 0 || (!is_ws(f[0]) && !is_ws(f.last())))
}

/// The item read from the line `* {label} {f}`.
pub open spec fn label_item(label: Seq<char>, f: Seq<char>) -> Seq<char> {
    if f.len() == 0 {
        label
    } else {
        label + " "@ + f
    }
}

proof fn lemma_trim_space(f: Seq<char>)
    requires
        f.len() > 0,
        !is_ws(f[0]),
        !is_ws(f.last()),
    ensures
        trim(" "@ + f) == f,
{
    reveal_strlit(" ");
    let g = " "@ + f;
    assert(g.drop_first() =~= f);
    assert(trim_start(g) == trim_start(f));
}

proof fn lemma_labelled_line(label: Seq<char>, f: Seq<char>)
    requires
        label.len() > 0,
        label.last() == ':',
        single_line(label),
        label[0] != '*',
        label[0] != '-',
        field_ok(f),
    ensures
        plain_line("* "@ + label + " "@ + f),
        !starts_with(trim("* "@ + label + " "@ + f), "## "@),
        starts_with(trim("* "@ + label + " "@ + f), "* "@),
        item_text(trim("* "@ + label + " "@ + f)) == label_item(label, f),
{
    reveal_strlit("* ");
    reveal_strlit("- ");
    reveal_strlit("## ");
    reveal_strlit(" ");
    let line = "* "@ + label + " "@ + f;
    let t = trim("* "@ + label + " "@ + f);
    assert(line[0] == '*');
    assert forall|k: int| 0 <= k < line.len() implies line[k] != '\n' by {
        if 2 <= k < 2 + label.len() {
            assert(line[k] == label[k - 2]);
        } else if k >= 3 + label.len() {
            assert(line[k] == f[k - 3 - label.len()]);
        }
    }
    let rest = label_item(label, f);
    if f.len() == 0 {
        assert(line.last() == ' ');
        assert(line.drop_last() =~= "* "@ + label);
        assert(line.drop_last().last() == ':');
        assert(trim_start(line) == line);
        assert(trim_end(line) == trim_end(line.drop_last()));
        assert(trim_end(line.drop_last()) == line.drop_last());
        assert(t == "* "@ + rest);
    } else {
        assert(line.last() == f.last());
        lemma_trim_id(line);
        assert(line =~= "* "@ + rest);
    }
    assert(t[0] == '*');
    assert(!starts_with(t, "## "@)) by {
        if starts_with(t, "## "@) {
            assert(t.take(3)[0] == '#');
        }
    }
    assert(t.take(2) =~= "* "@);
    assert(rest[0] == label[0]);
    assert(!starts_with(rest, "* "@)) by {
        if starts_with(rest, "* "@) {
            assert(rest.take(2)[0] == '*');
        }
    }
    assert(!starts_with(rest, "- "@)) by {
        if starts_with(rest, "- "@) {
            assert(rest.take(2)[0] == '-');
        }
    }
    lemma_strip_once("* "@, rest);
}

/// Reading the label off a labelled item and trimming gives the field back.
proof fn lemma_strip_label(label: Seq<char>, f: Seq<char>)
    requires
        label.len() > 0,
        !is_ws(label[0]),
        field_ok(f),
    ensures
        trim(strip_all_prefix(label_item(label, f), label)) == f,
        f.len() > 0 ==> strip_all_prefix(label_item(label, f), label) == " "@ + f,
        f.len() == 0 ==> strip_all_prefix(label_item(label, f), label).len() == 0,
{
    reveal_strlit(" ");
    if f.len() == 0 {
        assert(label =~= label + Seq::<char>::empty());
        lemma_strip_once(label, Seq::<char>::empty());
        assert(trim(Seq::<char>::empty()) =~= Seq::<char>::empty());
    } else {
        assert(label_item(label, f) =~= label + (" "@ + f));
        assert(!starts_with(" "@ + f, label)) by {
            if starts_with(" "@ + f, label) {
                assert((" "@ + f).take(label.len() as int)[0] == label[0]);
            }
        }
        lemma_strip_once(label, " "@ + f);
        lemma_trim_space(f);
    }
}

proof fn lemma_after_last_suffix(pre: Seq<char>, y: Seq<char>, c: char)
    requires
        pre.len() > 0,
        pre.last() == c,
        forall|k: int| 0 <= k < y.len() ==> y[k] != c,
    ensures
        after_last(pre + y, c) == y,
    decreases y.len(),
{
    if y.len() == 0 {
        assert(pre + y =~= pre);
        assert(after_last(pre, c) =~= y);
    } else {
        lemma_after_last_suffix(pre, y.drop_last(), c);
        assert((pre + y).drop_last() =~= pre + y.drop_last());
        assert((pre + y).last() == y.last());
        assert(y.drop_last().push(y.last()) =~= y);
    }
}

proof fn lemma_not_prefix(s: Seq<char>, p: Seq<char>, k: int)
    requires
        0 <= k < p.len(),
        k < s.len(),
        s[k] != p[k],
    ensures
        !starts_with(s, p),
{
    if starts_with(s, p) {
        assert(s.take(p.len() as int)[k] == p[k]);
    }
}

proof fn lemma_domain_step(id: IdentityView, f: Seq<char>)
    requires
        field_ok(f),
    ensures
        identity_step(id, label_item("Domain:"@, f)) == (IdentityView { domain: f, ..id }),
{
    reveal_strlit("Domain:");
    reveal_strlit(" ");
    let item = label_item("Domain:"@, f);
    assert(item.take(7) =~= "Domain:"@);
    lemma_strip_label("Domain:"@, f);
}

proof fn lemma_objective_step(id: IdentityView, f: Seq<char>)
    requires
        field_ok(f),
    ensures
        identity_step(id, label_item("Core Objective:"@, f)) == (IdentityView {
            objective: f,
            ..id
        }),
{
    reveal_strlit("Core Objective:");
    reveal_strlit("Objective:");
    reveal_strlit("Domain:");
    reveal_strlit(" ");
    let item = label_item("Core Objective:"@, f);
    assert(item[0] == 'C');
    lemma_not_prefix(item, "Domain:"@, 0);
    assert(item.take(15) =~= "Core Objective:"@);
    lemma_strip_label("Core Objective:"@, f);
    let stripped = strip_all_prefix(item, "Core Objective:"@);
    if f.len() > 0 {
        assert(stripped[0] == ' ');
        lemma_not_prefix(stripped, "Objective:"@, 0);
    }
    assert(strip_all_prefix(stripped, "Objective:"@) == stripped);
}

proof fn lemma_brain_step(id: IdentityView, f: Seq<char>)
    requires
        field_ok(f),
        f.len() > 0,
        forall|k: int| 0 <= k < f.len() ==> f[k] != ':',
    ensures
        identity_step(id, label_item("Active Brain Layer:"@, f)) == (IdentityView {
            brain_layer: f,
            ..id
        }),
{
    reveal_strlit("Active Brain Layer:");
    reveal_strlit("Active Brain");
    reveal_strlit("Core Objective:");
    reveal_strlit("Objective:");
    reveal_strlit("Domain:");
    reveal_strlit(" ");
    let item = label_item("Active Brain Layer:"@, f);
    assert(item[0] == 'A');
    lemma_not_prefix(item, "Domain:"@, 0);
    lemma_not_prefix(item, "Core Objective:"@, 0);
    lemma_not_prefix(item, "Objective:"@, 0);
    assert(item.take(12) =~= "Active Brain"@);
    assert(item =~= "Active Brain Layer:"@ + (" "@ + f));
    lemma_after_last_suffix("Active Brain Layer:"@, " "@ + f, ':');
    lemma_trim_space(f);
}

proof fn lemma_labelled_step(st: ParseState, label: Seq<char>, f: Seq<char>)
    requires
        section_kind(st.section) is Identity,
        label.len() > 0,
        label.last() == ':',
        single_line(label),
        label[0] != '*',
        label[0] != '-',
        field_ok(f),
    ensures
        parse_step(st, "* "@ + label + " "@ + f) == (ParseState {
            identity: identity_step(st.identity, label_item(label, f)),
            ..st
        }),
        plain_line("* "@ + label + " "@ + f),
{
    lemma_labelled_line(label, f);
}

proof fn lemma_blank_step(st: ParseState)
    ensures
        parse_step(st, Seq::empty()) == st,
        plain_line(Seq::empty()),
{
    reveal_strlit("## ");
    reveal_strlit("* ");
    reveal_strlit("- ");
    let e = Seq::<char>::empty();
    assert(trim_start(e) == e);
    assert(trim_end(e) == e);
}

/// `id` is an identity that reads back as itself.
pub open spec fn identity_ok(id: IdentityView) -> bool {
    &&& field_ok(id.domain)
    &&& field_ok(id.objective)
    &&& field_ok(id.brain_layer)
    &&& forall|k: int| 0 <= k < id.brain_layer.len() ==> id.brain_layer[k] != ':'
}

proof fn lemma_identity_section(st: ParseState, id: IdentityView)
    requires
        identity_ok(id),
        st.identity.brain_layer.len() == 0,
    ensures
        parse_from(st, identity_lines(id)) == (ParseState {
            section: ascii_lowercase("Workspace Identity"@),
            identity: id,
            ..st
        }),
        forall|i: int|
            0 <= i < identity_lines(id).len() ==> plain_line(#[trigger] identity_lines(id)[i]),
{
    reveal_strlit("## Workspace Identity");
    reveal_strlit("## ");
    reveal_strlit("Workspace Identity");
    reveal_strlit("* Domain: ");
    reveal_strlit("* Core Objective: ");
    reveal_strlit("* Active Brain Layer: ");
    reveal_strlit("* ");
    reveal_strlit(" ");
    reveal_strlit("Domain:");
    reveal_strlit("Core Objective:");
    reveal_strlit("Active Brain Layer:");
    let h = "## Workspace Identity"@;
    let dl = "* Domain: "@ + id.domain;
    let ol = "* Core Objective: "@ + id.objective;
    let bl = "* Active Brain Layer: "@ + id.brain_layer;
    let e = Seq::<char>::empty();
    assert(h =~= "## "@ + "Workspace Identity"@);
    assert(dl =~= "* "@ + "Domain:"@ + " "@ + id.domain);
    assert(ol =~= "* "@ + "Core Objective:"@ + " "@ + id.objective);
    assert(bl =~= "* "@ + "Active Brain Layer:"@ + " "@ + id.brain_layer);
    // the header
    lemma_header_step(st, "Workspace Identity"@);
    lemma_kind_identity();
    let s1 = ParseState { section: ascii_lowercase("Workspace Identity"@), ..st };
    let l1 = Seq::<Seq<char>>::empty().push(h);
    lemma_parse_push(st, Seq::empty(), h);
    // the domain
    lemma_labelled_step(s1, "Domain:"@, id.domain);
    lemma_domain_step(s1.identity, id.domain);
    let s2 = ParseState { identity: IdentityView { domain: id.domain, ..s1.identity }, ..s1 };
    lemma_parse_push(st, l1, dl);
    let l2 = l1.push(dl);
    // the objective
    lemma_labelled_step(s2, "Core Objective:"@, id.objective);
    lemma_objective_step(s2.identity, id.objective);
    let s3 = ParseState { identity: IdentityView { objective: id.objective, ..s2.identity }, ..s2 };
    lemma_parse_push(st, l2, ol);
    let l3 = l2.push(ol);
    lemma_blank_step(s3);
    if id.brain_layer.len() > 0 {
        lemma_labelled_step(s3, "Active Brain Layer:"@, id.brain_layer);
        lemma_brain_step(s3.identity, id.brain_layer);
        let s4 = ParseState { identity: id, ..s3 };
        lemma_parse_push(st, l3, bl);
        let l4 = l3.push(bl);
        lemma_blank_step(s4);
        lemma_parse_push(st, l4, e);
        assert(identity_lines(id) =~= l4.push(e));
    } else {
        lemma_parse_push(st, l3, e);
        assert(identity_lines(id) =~= l3.push(e));
        assert(st.identity.brain_layer =~= id.brain_layer);
    }
}

proof fn lemma_title_step(st: ParseState)
    ensures
        parse_step(st, "# Repository Self-Hosting Manifesto"@) == st,
        plain_line("# Repository Self-Hosting Manifesto"@),
{
    reveal_strlit("# Repository Self-Hosting Manifesto");
    reveal_strlit("## ");
    reveal_strlit("* ");
    reveal_strlit("- ");
    let t = "# Repository Self-Hosting Manifesto"@;
    lemma_trim_id(t);
    lemma_not_prefix(t, "## "@, 1);
    lemma_not_prefix(t, "* "@, 0);
    lemma_not_prefix(t, "- "@, 0);
}

/// A header line for `x`, the item lines of `xs`, and (where `blank`) an empty line.
pub open spec fn section_lines(x: Seq<char>, xs: Seq<Seq<char>>, blank: bool) -> Seq<Seq<char>> {
    seq!["## "@ + x] + item_lines(xs) + (if blank {
        seq![Seq::<char>::empty()]
    } else {
        Seq::empty()
    })
}

/// Reading a header line, then the items `xs`, then (where `blank`) an empty line.
proof fn lemma_list_section(st: ParseState, x: Seq<char>, xs: Seq<Seq<char>>, blank: bool)
    requires
        x.len() > 0,
        all_ascii(x),
        single_line(x),
        !is_ws(x[0]),
        !is_ws(x.last()),
        x[0] != '#',
        !(section_kind(ascii_lowercase(x)) is Identity),
        forall|i: int| 0 <= i < xs.len() ==> item_ok(#[trigger] xs[i]),
    ensures
        parse_from(st, section_lines(x, xs, blank)) == with_items(
            ParseState { section: ascii_lowercase(x), ..st },
            xs,
        ),
        all_plain(section_lines(x, xs, blank)),
{
    let h = "## "@ + x;
    let s1 = ParseState { section: ascii_lowercase(x), ..st };
    let tail = if blank {
        seq![Seq::<char>::empty()]
    } else {
        Seq::empty()
    };
    let ls = seq![h] + item_lines(xs) + tail;
    assert(ls == section_lines(x, xs, blank));
    lemma_header_step(st, x);
    lemma_parse_push(st, Seq::empty(), h);
    assert(Seq::<Seq<char>>::empty().push(h) =~= seq![h]);
    lemma_items(s1, xs);
    lemma_parse_concat(st, seq![h], item_lines(xs));
    lemma_parse_concat(st, seq![h] + item_lines(xs), tail);
    let s2 = with_items(s1, xs);
    lemma_blank_step(s2);
    if blank {
        lemma_parse_push(s2, Seq::empty(), Seq::<char>::empty());
        assert(Seq::<Seq<char>>::empty().push(Seq::<char>::empty()) =~= tail);
    }
    assert forall|i: int| 0 <= i < ls.len() implies plain_line(#[trigger] ls[i]) by {
        if 1 <= i < 1 + xs.len() {
            assert(ls[i] == item_lines(xs)[i - 1]);
        }
    }
}

/// Every line of `ls` is a plain line.
pub open spec fn all_plain(ls: Seq<Seq<char>>) -> bool {
    forall|i: int| 0 <= i < ls.len() ==> plain_line(#[trigger] ls[i])
}

proof fn lemma_all_plain_concat(a: Seq<Seq<char>>, b: Seq<Seq<char>>)
    requires
        all_plain(a),
        all_plain(b),
    ensures
        all_plain(a + b),
{
    assert forall|i: int| 0 <= i < (a + b).len() implies plain_line(#[trigger] (a + b)[i]) by {
        if i < a.len() {
            assert(plain_line(a[i]));
        } else {
            assert(plain_line(b[i - a.len()]));
        }
    }
}

proof fn lemma_single_line_concat(a: Seq<char>, b: Seq<char>)
    requires
        single_line(a),
        single_line(b),
    ensures
        single_line(a + b),
{
    assert forall|k: int| 0 <= k < (a + b).len() implies (a + b)[k] != '\n' by {
        if k < a.len() {
            assert((a + b)[k] == a[k]);
        } else {
            assert((a + b)[k] == b[k - a.len()]);
        }
    }
}

proof fn lemma_lesson_text_ok(l: LessonView)
    requires
        single_line(l.insight),
        single_line(l.source),
    ensures
        item_ok(lesson_text(l)),
{
    reveal_strlit("[");
    reveal_strlit("ACCEPTED");
    reveal_strlit("REJECTED");
    reveal_strlit("] ");
    reveal_strlit(" (from ");
    reveal_strlit(")");
    reveal_strlit("* ");
    reveal_strlit("- ");
    let status = if l.accepted {
        "ACCEPTED"@
    } else {
        "REJECTED"@
    };
    assert(single_line("["@));
    assert(single_line(status));
    assert(single_line("] "@));
    assert(single_line(" (from "@));
    assert(single_line(")"@));
    lemma_single_line_concat("["@, status);
    lemma_single_line_concat("["@ + status, "] "@);
    lemma_single_line_concat("["@ + status + "] "@, l.insight);
    lemma_single_line_concat("["@ + status + "] "@ + l.insight, " (from "@);
    lemma_single_line_concat("["@ + status + "] "@ + l.insight + " (from "@, l.source);
    lemma_single_line_concat("["@ + status + "] "@ + l.insight + " (from "@ + l.source, ")"@);
    let t = lesson_text(l);
    assert(t[0] == '[');
    assert(t.last() == ')');
    lemma_not_prefix(t, "* "@, 0);
    lemma_not_prefix(t, "- "@, 0);
}

/// `m` is a manifest whose markdown reads back: its identity fields and
/// brain layer as `identity_ok` says, every law and capability a non-empty
/// single line that ends in no whitespace and starts with no `* ` or `- `,
/// and every lesson's insight and source a single line.
pub open spec fn renders_back(m: ManifestView) -> bool {
    &&& identity_ok(m.identity)
    &&& forall|i: int| 0 <= i < m.laws.len() ==> item_ok(#[trigger] m.laws[i])
    &&& forall|i: int| 0 <= i < m.capabilities.len() ==> item_ok(#[trigger] m.capabilities[i])
    &&& forall|i: int|
        0 <= i < m.lessons.len() ==> single_line((#[trigger] m.lessons[i]).insight) && single_line(
            m.lessons[i].source,
        )
}

/// Reading back the markdown that `Manifest::to_markdown` writes gives the
/// identity, the immutable laws and the capabilities unchanged, and every
/// lesson, in order, as a lesson of the repository itself whose insight is
/// the text of the line that rendered it.
pub proof fn law_markdown_round_trip(m: ManifestView)
    requires
        renders_back(m),
    ensures
        parsed(join_lines(markdown_lines(m))) == (ManifestView {
            identity: m.identity,
            laws: m.laws,
            lessons: own_lessons(lesson_texts(m.lessons)),
            capabilities: m.capabilities,
        }),
{
    reveal_strlit("## ");
    reveal_strlit("## Immutable Architecture Laws");
    reveal_strlit("Immutable Architecture Laws");
    reveal_strlit("## Lessons Learned");
    reveal_strlit("Lessons Learned");
    reveal_strlit("## Capabilities");
    reveal_strlit("Capabilities");
    let st0 = initial_state();
    let title = "# Repository Self-Hosting Manifesto"@;
    let a = seq![title, Seq::<char>::empty()];
    let b = identity_lines(m.identity);
    let c = law_lines(m.laws);
    let d = lesson_lines(m.lessons);
    let e = capability_lines(m.capabilities);
    assert(markdown_lines(m) == a + b + c + d + e);
    // the title and the blank line after it
    lemma_title_step(st0);
    lemma_blank_step(st0);
    lemma_parse_push(st0, Seq::empty(), title);
    lemma_parse_push(st0, seq![title], Seq::<char>::empty());
    assert(seq![title].push(Seq::<char>::empty()) =~= a);
    assert(Seq::<Seq<char>>::empty().push(title) =~= seq![title]);
    assert(all_plain(a));
    // the identity
    lemma_identity_section(st0, m.identity);
    let s1 = ParseState {
        section: ascii_lowercase("Workspace Identity"@),
        identity: m.identity,
        ..st0
    };
    lemma_parse_concat(st0, a, b);
    lemma_all_plain_concat(a, b);
    // the laws
    let s2 = if m.laws.len() > 0 {
        ParseState {
            section: ascii_lowercase("Immutable Architecture Laws"@),
            laws: m.laws,
            ..s1
        }
    } else {
        s1
    };
    if m.laws.len() > 0 {
        lemma_kind_laws();
        lemma_list_section(s1, "Immutable Architecture Laws"@, m.laws, true);
        assert("## Immutable Architecture Laws"@ =~= "## "@ + "Immutable Architecture Laws"@);
        assert(c =~= section_lines("Immutable Architecture Laws"@, m.laws, true));
        assert(s1.laws + m.laws =~= m.laws);
    } else {
        assert(c =~= Seq::<Seq<char>>::empty());
    }
    assert(parse_from(s1, c) == s2);
    assert(all_plain(c));
    lemma_parse_concat(st0, a + b, c);
    lemma_all_plain_concat(a + b, c);
    // the lessons
    let texts_of_lessons = lesson_texts(m.lessons);
    assert forall|i: int| 0 <= i < texts_of_lessons.len() implies item_ok(
        #[trigger] texts_of_lessons[i],
    ) by {
        assert(single_line(m.lessons[i].insight) && single_line(m.lessons[i].source));
        lemma_lesson_text_ok(m.lessons[i]);
    }
    let s3 = if m.lessons.len() > 0 {
        ParseState {
            section: ascii_lowercase("Lessons Learned"@),
            lessons: texts_of_lessons,
            ..s2
        }
    } else {
        s2
    };
    if m.lessons.len() > 0 {
        lemma_kind_lessons();
        lemma_list_section(s2, "Lessons Learned"@, texts_of_lessons, true);
        assert("## Lessons Learned"@ =~= "## "@ + "Lessons Learned"@);
        assert(d =~= section_lines("Lessons Learned"@, texts_of_lessons, true));
        assert(s2.lessons + texts_of_lessons =~= texts_of_lessons);
    } else {
        assert(d =~= Seq::<Seq<char>>::empty());
        assert(texts_of_lessons =~= s2.lessons);
    }
    assert(parse_from(s2, d) == s3);
    assert(all_plain(d));
    lemma_parse_concat(st0, a + b + c, d);
    lemma_all_plain_concat(a + b + c, d);
    // the capabilities
    let s4 = if m.capabilities.len() > 0 {
        ParseState {
            section: ascii_lowercase("Capabilities"@),
            capabilities: m.capabilities,
            ..s3
        }
    } else {
        s3
    };
    if m.capabilities.len() > 0 {
        lemma_kind_capabilities();
        lemma_list_section(s3, "Capabilities"@, m.capabilities, false);
        assert("## Capabilities"@ =~= "## "@ + "Capabilities"@);
        assert(s3.capabilities + m.capabilities =~= m.capabilities);
        assert(section_lines("Capabilities"@, m.capabilities, false) =~= e);
    } else {
        assert(e =~= Seq::<Seq<char>>::empty());
        assert(m.capabilities =~= s3.capabilities);
    }
    assert(parse_from(s3, e) == s4);
    assert(all_plain(e));
    lemma_parse_concat(st0, a + b + c + d, e);
    lemma_all_plain_concat(a + b + c + d, e);
    // the lines of the text are the lines written
    lemma_lines_join(markdown_lines(m));
    assert(m.laws.len() == 0 ==> m.laws =~= s4.laws);
}

// ─── The host agent and the guard ───────────────────────────────────────────

/// A manifest without laws finds no violation in any patch, and a guard
/// without laws finds none in any diff.
pub proof fn law_no_laws_no_violation(patch: Seq<char>, diff: Seq<char>)
    ensures
        first_violation(Seq::empty(), patch) is None,
        diff_violations(Seq::empty(), diff).len() == 0,
{
}

/// Every evaluation raises exactly one of the two counters by one: the commit
/// count where the proposal is accepted, the rejection count where it is not.
pub proof fn law_evaluation_counts(a: AgentView, p: ProposalView, t: u64)
    requires
        can_evaluate(a, p),
    ensures
        ({
            let (b, v) = evaluate(a, p, t);
            &&& b.commit_count + b.rejected_count == a.commit_count + a.rejected_count + 1
            &&& (v is Accepted <==> b.commit_count == a.commit_count + 1)
            &&& (v is Rejected <==> b.rejected_count == a.rejected_count + 1)
        }),
{
}

/// Lessons are append-only: an evaluation keeps every lesson, the identity,
/// the laws and the capabilities, and adds at most one lesson at the end.
pub proof fn law_lessons_append_only(a: AgentView, p: ProposalView, t: u64)
    requires
        can_evaluate(a, p),
    ensures
        ({
            let (b, v) = evaluate(a, p, t);
            &&& b.manifest.identity == a.manifest.identity
            &&& b.manifest.laws == a.manifest.laws
            &&& b.manifest.capabilities == a.manifest.capabilities
            &&& b.manifest.lessons.take(a.manifest.lessons.len() as int) == a.manifest.lessons
            &&& b.manifest.lessons.len() == a.manifest.lessons.len() + (if v is Accepted {
                1int
            } else {
                0int
            })
        }),
{
    let (b, v) = evaluate(a, p, t);
    assert(b.manifest.lessons.take(a.manifest.lessons.len() as int) =~= a.manifest.lessons);
}

/// An accepted proposal raises the number of accepted lessons by one; a
/// refused one leaves it.
pub proof fn law_accepted_count(a: AgentView, p: ProposalView, t: u64)
    requires
        can_evaluate(a, p),
    ensures
        ({
            let (b, v) = evaluate(a, p, t);
            count_accepted(b.manifest.lessons) == count_accepted(a.manifest.lessons) + (
            if v is Accepted {
                1nat
            } else {
                0nat
            })
        }),
{
    let (b, v) = evaluate(a, p, t);
    if v is Accepted {
        assert(b.manifest.lessons.drop_last() =~= a.manifest.lessons);
    }
}

/// A proposal whose patch violates a law is refused whatever else it holds,
/// with the first violation in the critique, and nothing but the rejection
/// count changes.
pub proof fn law_violation_refused(a: AgentView, p: ProposalView, t: u64)
    requires
        can_evaluate(a, p),
        first_violation(a.manifest.laws, p.suggested_patch) is Some,
    ensures
        ({
            let (b, v) = evaluate(a, p, t);
            let w = first_violation(a.manifest.laws, p.suggested_patch)->0;
            &&& v == Verdict::Rejected { critique: "Rejected: "@ + violation_message(w) }
            &&& b == AgentView { rejected_count: (a.rejected_count + 1) as u64, ..a }
        }),
{
}

/// The commit hash of an accepted proposal has sixteen digits.
pub proof fn law_commit_hash_width(n: nat, k: nat)
    ensures
        hex_digits(n, k).len() == k,
    decreases k,
{
    if k > 0 {
        law_commit_hash_width(n / 16, (k - 1) as nat);
    }
}

// ─── Text: lines and UTF-8 length ───────────────────────────────────────────

proof fn lemma_trim_start_append(y: Seq<char>, z: Seq<char>)
    ensures
        trim_start(y).len() > 0 ==> trim_start(y + z) == trim_start(y) + z,
        trim_start(y).len() == 0 ==> trim_start(y + z) == trim_start(z),
    decreases y.len(),
{
    if y.len() == 0 {
        assert(y + z =~= z);
    } else {
        assert((y + z)[0] == y[0]);
        if is_ws(y[0]) {
            assert((y + z).drop_first() =~= y.drop_first() + z);
            lemma_trim_start_append(y.drop_first(), z);
        }
    }
}

/// Whitespace at the end of a line changes nothing once the line is trimmed.
proof fn lemma_trim_drop_ws(x: Seq<char>)
    requires
        x.len() > 0,
        is_ws(x.last()),
    ensures
        trim(x) == trim(x.drop_last()),
{
    let y = x.drop_last();
    let c = x.last();
    assert(x =~= y + seq![c]);
    lemma_trim_start_append(y, seq![c]);
    if trim_start(y).len() > 0 {
        let w = trim_start(y) + seq![c];
        assert(w.drop_last() =~= trim_start(y));
    } else {
        assert(trim_start(seq![c]) == trim_start(seq![c].drop_first()));
        assert(seq![c].drop_first() =~= Seq::<char>::empty());
        assert(trim_start(y) =~= Seq::<char>::empty());
    }
}

/// `str::lines` gives the text after the last newline as a last line, with
/// or without a newline after it: a non-empty text `b` without a newline is
/// one line by itself, and it is the line that follows whatever text ends in
/// a newline before it.
pub proof fn law_final_line_without_newline(a: Seq<char>, b: Seq<char>)
    requires
        b.len() > 0,
        single_line(b),
    ensures
        lines(b) == seq![b],
        lines(a + seq!['\n'] + b) == lines(a + seq!['\n']).push(b),
{
    lemma_scan_append(Seq::empty(), b);
    assert(Seq::<char>::empty() + b =~= b);
    assert(line_scan(Seq::<char>::empty()).1 + b =~= b);
    assert(line_scan(Seq::<char>::empty()).0 =~= Seq::<Seq<char>>::empty());
    let a1 = a + seq!['\n'];
    assert(a1.drop_last() =~= a);
    assert(line_scan(a1).1 =~= Seq::<char>::empty());
    lemma_scan_append(a1, b);
    assert(line_scan(a1).1 + b =~= b);
}

/// A newline after the last line changes nothing that is read: for every
/// text, reading it and reading it with one more `\n` give the same manifest.
pub proof fn law_parse_final_newline(s: Seq<char>)
    ensures
        parsed(s) == parsed(s + seq!['\n']),
{
    let s1 = s + seq!['\n'];
    assert(s1.drop_last() =~= s);
    let (done, cur) = line_scan(s);
    assert(lines(s1) == done.push(strip_cr(cur)));
    let st = parse_from(initial_state(), done);
    if cur.len() > 0 {
        assert(lines(s) == done.push(cur));
        lemma_parse_push(initial_state(), done, cur);
        lemma_parse_push(initial_state(), done, strip_cr(cur));
        if cur.last() == '\r' {
            lemma_trim_drop_ws(cur);
        }
        assert(trim(strip_cr(cur)) == trim(cur));
        assert(parse_step(st, strip_cr(cur)) == parse_step(st, cur));
    } else {
        assert(lines(s) == done);
        assert(strip_cr(cur) =~= Seq::<char>::empty());
        lemma_parse_push(initial_state(), done, Seq::<char>::empty());
        lemma_blank_step(st);
    }
}

proof fn lemma_utf8_len_front(s: Seq<char>)
    requires
        s.len() > 0,
    ensures
        utf8_len(s) == char_utf8_len(s[0]) + utf8_len(s.drop_first()),
    decreases s.len(),
{
    if s.len() == 1 {
        assert(s.drop_last() =~= Seq::<char>::empty());
        assert(s.drop_first() =~= Seq::<char>::empty());
    } else {
        lemma_utf8_len_front(s.drop_last());
        assert(s.drop_last().drop_first() =~= s.drop_first().drop_last());
        assert(s.drop_first().last() == s.last());
        assert(s.drop_last()[0] == s[0]);
    }
}

/// The byte count used for texts is the length of their UTF-8 encoding, the
/// length `str::len` gives: one byte below U+0080, two below U+0800, three
/// below U+10000 and four above.
pub proof fn law_utf8_len_is_encoding_length(s: Seq<char>)
    ensures
        utf8_len(s) == encode_utf8(s).len(),
    decreases s.len(),
{
    if s.len() > 0 {
        lemma_utf8_len_front(s);
        law_utf8_len_is_encoding_length(s.drop_first());
        let c = s[0];
        char_is_scalar(c);
        assert(encode_scalar(c as u32).len() == char_utf8_len(c));
    }
}

/// A proposal that breaks no law, has a patch that is not blank, and a
/// rationale of more than ten UTF-8 bytes once trimmed is accepted; one whose
/// trimmed rationale has at most ten bytes (and breaks no law, with a patch
/// that is not blank) is refused as too short.
pub proof fn law_rationale_length(a: AgentView, p: ProposalView, t: u64)
    requires
        can_evaluate(a, p),
        first_violation(a.manifest.laws, p.suggested_patch) is None,
        trim(p.suggested_patch).len() > 0,
    ensures
        encode_utf8(trim(p.architectural_rationale)).len() > 10 ==> (evaluate(a, p, t).1
            is Accepted),
        encode_utf8(trim(p.architectural_rationale)).len() <= 10 ==> evaluate(a, p, t).1 == (
        Verdict::Rejected {
            critique: "Rejected: Rationale too short — guest must explain reasoning"@,
        }),
{
    law_utf8_len_is_encoding_length(trim(p.architectural_rationale));
}

// ─── The status shown for a lesson ──────────────────────────────────────────

/// A lesson is shown as `[ACCEPTED] …` exactly when it is accepted, and as
/// `[REJECTED] …` exactly when it is not, whatever its other fields.
pub proof fn law_lesson_status(l: LessonView)
    ensures
        starts_with(lesson_text(l), "[ACCEPTED] "@) <==> l.accepted,
        starts_with(lesson_text(l), "[REJECTED] "@) <==> !l.accepted,
{
    reveal_strlit("[");
    reveal_strlit("ACCEPTED");
    reveal_strlit("REJECTED");
    reveal_strlit("] ");
    reveal_strlit("[ACCEPTED] ");
    reveal_strlit("[REJECTED] ");
    let t = lesson_text(l);
    assert(t.len() >= 11);
    if l.accepted {
        assert(t.take(11) =~= "[ACCEPTED] "@);
        lemma_not_prefix(t, "[REJECTED] "@, 1);
    } else {
        assert(t.take(11) =~= "[REJECTED] "@);
        lemma_not_prefix(t, "[ACCEPTED] "@, 1);
    }
}

// ─── What the laws catch ────────────────────────────────────────────────────

/// Each rule of the immutable laws finds a violation: a law that (lowercased)
/// says "never accept" and "unsafe" catches a patch that (lowercased) holds
/// an `unsafe {` or `unsafe{` block; a law that says "no mutex" or
/// "never.*mutex" catches a patch that holds `Mutex`; a law that says
/// "non-blocking" or "nonblocking" catches a patch that holds `.block_on(` or
/// `std::thread::sleep`. A law that says none of these finds nothing.
pub proof fn law_law_rules(law: Seq<char>, patch: Seq<char>)
    ensures
        contains(to_lower(law), "never accept"@) && contains(to_lower(law), "unsafe"@) && (
        contains(to_lower(patch), "unsafe {"@) || contains(to_lower(patch), "unsafe{"@))
            ==> law_violation(law, patch) == Some("Proposed patch contains unsafe block"@),
        (contains(to_lower(law), "no mutex"@) || contains(to_lower(law), "never.*mutex"@)) && (
        contains(patch, "Mutex"@) || contains(patch, "std::sync::Mutex"@)) ==> (law_violation(
            law,
            patch,
        ) is Some),
        (contains(to_lower(law), "non-blocking"@) || contains(to_lower(law), "nonblocking"@)) && (
        contains(patch, ".block_on("@) || contains(patch, "std::thread::sleep"@)) ==> (law_violation(
            law,
            patch,
        ) is Some),
        !contains(to_lower(law), "never accept"@) && (contains(to_lower(law), "no mutex"@)
            || contains(to_lower(law), "never.*mutex"@)) && contains(patch, "Mutex"@)
            ==> law_violation(law, patch) == Some("Proposed patch introduces Mutex"@),
        !contains(to_lower(law), "never accept"@) && !contains(to_lower(law), "no mutex"@)
            && !contains(to_lower(law), "never.*mutex"@) && (contains(
            to_lower(law),
            "non-blocking"@,
        ) || contains(to_lower(law), "nonblocking"@)) && (contains(patch, ".block_on("@)
            || contains(patch, "std::thread::sleep"@)) ==> law_violation(law, patch) == Some(
            "Proposed patch introduces blocking operation"@,
        ),
        !contains(to_lower(law), "never accept"@) && !contains(to_lower(law), "no mutex"@)
            && !contains(to_lower(law), "never.*mutex"@) && !contains(to_lower(law), "non-blocking"@)
            && !contains(to_lower(law), "nonblocking"@) ==> (law_violation(law, patch) is None),
{
}

/// A patch that one of the laws catches is refused by the first law that
/// catches it: the violation reported names a law of the list, catches the
/// patch, and no law before it does.
pub proof fn law_first_violation(laws: Seq<Seq<char>>, patch: Seq<char>, i: int)
    requires
        0 <= i < laws.len(),
        law_violation(laws[i], patch) is Some,
    ensures
        (first_violation(laws, patch) is Some),
        exists|j: int|
            0 <= j <= i && #[trigger] laws[j] == first_violation(laws, patch)->0.law
                && law_violation(laws[j], patch) == Some(first_violation(laws, patch)->0.violation)
                && forall|k: int| 0 <= k < j ==> law_violation(#[trigger] laws[k], patch) is None,
    decreases i,
{
    if law_violation(laws[0], patch) is Some {
        assert(laws[0] == first_violation(laws, patch)->0.law);
    } else {
        law_first_violation(laws.drop_first(), patch, i - 1);
        let j = choose|j: int|
            0 <= j <= i - 1 && #[trigger] laws.drop_first()[j] == first_violation(
                laws.drop_first(),
                patch,
            )->0.law && law_violation(laws.drop_first()[j], patch) == Some(
                first_violation(laws.drop_first(), patch)->0.violation,
            ) && forall|k: int|
                0 <= k < j ==> law_violation(#[trigger] laws.drop_first()[k], patch) is None;
        assert(laws[j + 1] == laws.drop_first()[j]);
        assert forall|k: int| 0 <= k < j + 1 implies law_violation(#[trigger] laws[k], patch)
            is None by {
            if k > 0 {
                assert(laws[k] == laws.drop_first()[k - 1]);
            }
        }
    }
}

/// Each rule of the commit guard reports its violation for a law: a law that
/// (lowercased) says "unsafe" reports a diff holding `unsafe {` or `unsafe{`;
/// one that says "unwrap()" reports a diff holding `.unwrap()`; one that says
/// "todo" reports a diff holding `todo!`. Every violation reported names the
/// law and is one of these three.
pub proof fn law_guard_rules(law: Seq<char>, diff: Seq<char>)
    ensures
        contains(to_lower(law), "unsafe"@) && (contains(diff, "unsafe {"@) || contains(
            diff,
            "unsafe{"@,
        )) ==> law_diff_violations(law, diff).contains(
            ViolationView { law, violation: "Diff introduces unsafe block"@ },
        ),
        contains(to_lower(law), "unwrap()"@) && contains(diff, ".unwrap()"@)
            ==> law_diff_violations(law, diff).contains(
            ViolationView { law, violation: "Diff uses .unwrap() — use proper error handling"@ },
        ),
        contains(to_lower(law), "todo"@) && contains(diff, "todo!"@) ==> law_diff_violations(
            law,
            diff,
        ).contains(ViolationView { law, violation: "Diff contains todo!() macro"@ }),
        forall|k: int|
            0 <= k < law_diff_violations(law, diff).len() ==> (#[trigger] law_diff_violations(
                law,
                diff,
            )[k]).law == law,
{
    let v = law_diff_violations(law, diff);
    let lower = to_lower(law);
    let a = if contains(lower, "unsafe"@) && (contains(diff, "unsafe {"@) || contains(diff, "unsafe{"@)) {
        seq![ViolationView { law, violation: "Diff introduces unsafe block"@ }]
    } else {
        Seq::empty()
    };
    let b = if contains(lower, "unwrap()"@) && contains(diff, ".unwrap()"@) {
        seq![ViolationView { law, violation: "Diff uses .unwrap() — use proper error handling"@ }]
    } else {
        Seq::empty()
    };
    let c = if contains(lower, "todo"@) && contains(diff, "todo!"@) {
        seq![ViolationView { law, violation: "Diff contains todo!() macro"@ }]
    } else {
        Seq::empty()
    };
    assert(v == a + b + c);
    if a.len() > 0 {
        assert(v[0] == a[0]);
    }
    if b.len() > 0 {
        assert(v[a.len() as int] == b[0]);
    }
    if c.len() > 0 {
        assert(v[(a.len() + b.len()) as int] == c[0]);
    }
}

/// The guard reports, for every law of its list, the violations that law
/// finds in the diff.
pub proof fn law_guard_reports_every_law(laws: Seq<Seq<char>>, diff: Seq<char>, i: int, x: ViolationView)
    requires
        0 <= i < laws.len(),
        law_diff_violations(laws[i], diff).contains(x),
    ensures
        diff_violations(laws, diff).contains(x),
    decreases laws.len(),
{
    let prev = laws.drop_last();
    let d = diff_violations(prev, diff);
    let e = law_diff_violations(laws.last(), diff);
    assert(diff_violations(laws, diff) == d + e);
    if i == laws.len() - 1 {
        let k = choose|k: int| 0 <= k < e.len() && e[k] == x;
        assert((d + e)[d.len() + k] == x);
    } else {
        assert(laws[i] == prev[i]);
        law_guard_reports_every_law(prev, diff, i, x);
        let k = choose|k: int| 0 <= k < d.len() && d[k] == x;
        assert((d + e)[k] == x);
    }
}

// ─── Text operations ────────────────────────────────────────────────────────

/// Trimming removes whitespace from both ends and nothing else: the result
/// is a stretch of the text, everything before and after it is whitespace,
/// and it neither starts nor ends with whitespace.
pub proof fn law_trim(s: Seq<char>)
    ensures
        exists|lo: int, hi: int|
            0 <= lo <= hi <= s.len() && #[trigger] s.subrange(lo, hi) == trim(s) && (forall|k: int|
                0 <= k < lo ==> is_ws(s[k])) && (forall|k: int| hi <= k < s.len() ==> is_ws(s[k])),
        trim(s).len() > 0 ==> !is_ws(trim(s)[0]) && !is_ws(trim(s).last()),
    decreases s.len(),
{
    lemma_trim_shape(s);
}

proof fn lemma_trim_start_shape(s: Seq<char>)
    ensures
        exists|lo: int|
            0 <= lo <= s.len() && #[trigger] s.skip(lo) == trim_start(s) && forall|k: int|
                0 <= k < lo ==> is_ws(s[k]),
        trim_start(s).len() > 0 ==> !is_ws(trim_start(s)[0]),
    decreases s.len(),
{
    if s.len() > 0 && is_ws(s[0]) {
        lemma_trim_start_shape(s.drop_first());
        let lo = choose|lo: int|
            0 <= lo <= s.drop_first().len() && #[trigger] s.drop_first().skip(lo) == trim_start(
                s.drop_first(),
            ) && forall|k: int| 0 <= k < lo ==> is_ws(s.drop_first()[k]);
        assert(s.skip(lo + 1) =~= s.drop_first().skip(lo));
        assert forall|k: int| 0 <= k < lo + 1 implies is_ws(s[k]) by {
            if k > 0 {
                assert(s[k] == s.drop_first()[k - 1]);
            }
        }
    } else {
        assert(s.skip(0) =~= s);
    }
}

proof fn lemma_trim_end_shape(s: Seq<char>)
    ensures
        exists|hi: int|
            0 <= hi <= s.len() && #[trigger] s.take(hi) == trim_end(s) && forall|k: int|
                hi <= k < s.len() ==> is_ws(s[k]),
        trim_end(s).len() > 0 ==> !is_ws(trim_end(s).last()),
    decreases s.len(),
{
    if s.len() > 0 && is_ws(s.last()) {
        lemma_trim_end_shape(s.drop_last());
        let hi = choose|hi: int|
            0 <= hi <= s.drop_last().len() && #[trigger] s.drop_last().take(hi) == trim_end(
                s.drop_last(),
            ) && forall|k: int| hi <= k < s.drop_last().len() ==> is_ws(s.drop_last()[k]);
        assert(s.take(hi) =~= s.drop_last().take(hi));
        assert forall|k: int| hi <= k < s.len() implies is_ws(s[k]) by {
            if k < s.len() - 1 {
                assert(s[k] == s.drop_last()[k]);
            }
        }
    } else {
        assert(s.take(s.len() as int) =~= s);
    }
}

proof fn lemma_trim_shape(s: Seq<char>)
    ensures
        exists|lo: int, hi: int|
            0 <= lo <= hi <= s.len() && #[trigger] s.subrange(lo, hi) == trim(s) && (forall|k: int|
                0 <= k < lo ==> is_ws(s[k])) && (forall|k: int| hi <= k < s.len() ==> is_ws(s[k])),
        trim(s).len() > 0 ==> !is_ws(trim(s)[0]) && !is_ws(trim(s).last()),
{
    lemma_trim_start_shape(s);
    let lo = choose|lo: int|
        0 <= lo <= s.len() && #[trigger] s.skip(lo) == trim_start(s) && forall|k: int|
            0 <= k < lo ==> is_ws(s[k]);
    let t = trim_start(s);
    lemma_trim_end_shape(t);
    let h = choose|h: int|
        0 <= h <= t.len() && #[trigger] t.take(h) == trim_end(t) && forall|k: int|
            h <= k < t.len() ==> is_ws(t[k]);
    assert(s.subrange(lo, lo + h) =~= t.take(h));
    assert forall|k: int| lo + h <= k < s.len() implies is_ws(s[k]) by {
        assert(s[k] == t[k - lo]);
    }
    if trim(s).len() > 0 {
        assert(trim(s)[0] == t[0]);
    }
    assert(s.subrange(lo, lo + h) == trim(s));
}

/// Stripping every leading copy of a non-empty `p` leaves a suffix of the
/// text that does not start with `p`, and what it removed is copies of `p`.
pub proof fn law_strip_all_prefix(s: Seq<char>, p: Seq<char>)
    requires
        p.len() > 0,
    ensures
        ({
            let r = strip_all_prefix(s, p);
            let n = s.len() - r.len();
            &&& 0 <= n <= s.len()
            &&& s.skip(n) == r
            &&& !starts_with(r, p)
            &&& n % (p.len() as int) == 0
            &&& forall|i: int| 0 <= i < n ==> #[trigger] s[i] == p[i % (p.len() as int)]
        }),
    decreases s.len(),
{
    if starts_with(s, p) {
        let s2 = s.skip(p.len() as int);
        law_strip_all_prefix(s2, p);
        let r = strip_all_prefix(s, p);
        let n = s.len() - r.len();
        let m = s2.len() - r.len();
        assert(n == m + p.len());
        assert(s.skip(n) =~= s2.skip(m));
        assert(n % (p.len() as int) == 0) by (nonlinear_arith)
            requires
                n == m + p.len(),
                m % (p.len() as int) == 0,
                p.len() > 0,
        ;
        assert forall|i: int| 0 <= i < n implies #[trigger] s[i] == p[i % (p.len() as int)] by {
            if i < p.len() {
                assert(s.take(p.len() as int)[i] == p[i]);
                assert(i % (p.len() as int) == i) by (nonlinear_arith)
                    requires
                        0 <= i < p.len(),
                ;
            } else {
                assert(s[i] == s2[i - p.len()]);
                assert(s2[i - p.len()] == p[(i - p.len()) % (p.len() as int)]);
                assert((i - p.len()) % (p.len() as int) == i % (p.len() as int)) by (nonlinear_arith)
                    requires
                        i >= p.len(),
                        p.len() > 0,
                ;
            }
        }
    } else {
        assert(s.skip(0) =~= s);
    }
}

/// The text after the last `c` is a suffix of the text that holds no `c`,
/// and it is preceded by a `c` unless it is the whole text.
pub proof fn law_after_last(s: Seq<char>, c: char)
    ensures
        ({
            let r = after_last(s, c);
            let n = s.len() - r.len();
            &&& 0 <= n <= s.len()
            &&& s.skip(n) == r
            &&& forall|k: int| 0 <= k < r.len() ==> r[k] != c
            &&& (n == 0 || s[n - 1] == c)
        }),
    decreases s.len(),
{
    if s.len() == 0 {
        assert(s.skip(0) =~= s);
    } else if s.last() == c {
        assert(s.skip(s.len() as int) =~= Seq::<char>::empty());
    } else {
        law_after_last(s.drop_last(), c);
        let r0 = after_last(s.drop_last(), c);
        let n = s.drop_last().len() - r0.len();
        assert(s.skip(n) =~= r0.push(s.last()));
        if n > 0 {
            assert(s[n - 1] == s.drop_last()[n - 1]);
        }
    }
}

// ─── Hexadecimal commit hashes ──────────────────────────────────────────────

/// The value of a lowercase hexadecimal digit.
pub open spec fn hex_value_of(c: char) -> int {
    if '0' <= c && c <= '9' {
        (c as u32) - ('0' as u32)
    } else {
        (c as u32) - ('a' as u32) + 10
    }
}

/// `c` is a lowercase hexadecimal digit.
pub open spec fn is_hex_char(c: char) -> bool {
    ('0' <= c && c <= '9') || ('a' <= c && c <= 'f')
}

/// The number that a string of hexadecimal digits writes, most significant first.
pub open spec fn hex_value(s: Seq<char>) -> int
    decreases s.len(),
{
    if s.len() == 0 {
        0
    } else {
        hex_value(s.drop_last()) * 16 + hex_value_of(s.last())
    }
}

/// 16 to the power `k`.
pub open spec fn pow16(k: nat) -> nat
    decreases k,
{
    if k == 0 {
        1
    } else {
        16 * pow16((k - 1) as nat)
    }
}

/// The `k` hexadecimal digits of a number below 16^k are lowercase digits
/// that write that number.
pub proof fn law_hex_digits_value(n: nat, k: nat)
    requires
        n < pow16(k),
    ensures
        hex_value(hex_digits(n, k)) == n,
        forall|i: int| 0 <= i < hex_digits(n, k).len() ==> is_hex_char(#[trigger] hex_digits(n, k)[i]),
    decreases k,
{
    if k > 0 {
        let p = pow16((k - 1) as nat);
        assert(n / 16 < p) by (nonlinear_arith)
            requires
                n < 16 * p,
        ;
        law_hex_digits_value(n / 16, (k - 1) as nat);
        let d = n % 16;
        let h = hex_digits(n, k);
        assert(h.drop_last() == hex_digits(n / 16, (k - 1) as nat));
        assert(hex_value_of(hex_digit(d)) == d);
        assert(n == (n / 16) * 16 + d);
        assert forall|i: int| 0 <= i < h.len() implies is_hex_char(#[trigger] h[i]) by {
            if i < h.len() - 1 {
                assert(h[i] == hex_digits(n / 16, (k - 1) as nat)[i]);
            }
        }
    }
}

/// The commit hash of an accepted proposal writes the new commit count in
/// sixteen lowercase hexadecimal digits.
pub proof fn law_commit_hash_value(a: AgentView, p: ProposalView, t: u64)
    requires
        can_evaluate(a, p),
        evaluate(a, p, t).1 is Accepted,
    ensures
        ({
            let (b, v) = evaluate(a, p, t);
            let h = v->Accepted_commit_hash;
            &&& h.len() == 16
            &&& hex_value(h) == b.commit_count
            &&& forall|i: int| 0 <= i < 16 ==> is_hex_char(#[trigger] h[i])
        }),
{
    let (b, v) = evaluate(a, p, t);
    assert(pow16(16) == 0x1_0000_0000_0000_0000) by {
        reveal_with_fuel(pow16, 17);
    }
    law_commit_hash_width(b.commit_count as nat, 16);
    law_hex_digits_value(b.commit_count as nat, 16);
}

// ─── Evaluation outcomes ────────────────────────────────────────────────────

/// A proposal that breaks no law but whose patch is blank once trimmed is
/// refused as an empty patch, and only the rejection count changes.
pub proof fn law_empty_patch_refused(a: AgentView, p: ProposalView, t: u64)
    requires
        can_evaluate(a, p),
        first_violation(a.manifest.laws, p.suggested_patch) is None,
        forall|k: int| 0 <= k < p.suggested_patch.len() ==> is_ws(#[trigger] p.suggested_patch[k]),
    ensures
        evaluate(a, p, t) == (
            AgentView { rejected_count: (a.rejected_count + 1) as u64, ..a },
            Verdict::Rejected { critique: "Rejected: Empty patch"@ },
        ),
{
    law_trim(p.suggested_patch);
    if trim(p.suggested_patch).len() > 0 {
        let lo_hi = choose|lo: int, hi: int|
            0 <= lo <= hi <= p.suggested_patch.len() && #[trigger] p.suggested_patch.subrange(lo, hi)
                == trim(p.suggested_patch) && (forall|k: int| 0 <= k < lo ==> is_ws(p.suggested_patch[k]))
                && (forall|k: int| hi <= k < p.suggested_patch.len() ==> is_ws(p.suggested_patch[k]));
        assert(trim(p.suggested_patch)[0] == p.suggested_patch[lo_hi.0]);
    }
}

/// An accepted proposal is recorded as an accepted lesson at the end of the
/// manifest: taught by the guest, with the proposal's rationale as its
/// insight and the time of the evaluation.
pub proof fn law_accepted_lesson_recorded(a: AgentView, p: ProposalView, t: u64)
    requires
        can_evaluate(a, p),
        evaluate(a, p, t).1 is Accepted,
    ensures
        ({
            let b = evaluate(a, p, t).0;
            let l = b.manifest.lessons.last();
            &&& b.manifest.lessons.len() == a.manifest.lessons.len() + 1
            &&& l.source == p.guest_agent_id
            &&& l.insight == p.architectural_rationale
            &&& l.timestamp == t
            &&& l.accepted
            &&& b.commit_count == a.commit_count + 1
            &&& b.rejected_count == a.rejected_count
        }),
{
}

// ─── Reading sections ───────────────────────────────────────────────────────

/// Items under a `## Immutable Architecture Laws` header are read as the
/// laws, and items under `## Capabilities` as the capabilities, in order.
pub proof fn law_parse_list_sections(xs: Seq<Seq<char>>)
    requires
        forall|i: int| 0 <= i < xs.len() ==> item_ok(#[trigger] xs[i]),
    ensures
        parsed(join_lines(seq!["## Immutable Architecture Laws"@] + item_lines(xs))).laws == xs,
        parsed(join_lines(seq!["## Capabilities"@] + item_lines(xs))).capabilities == xs,
{
    reveal_strlit("## ");
    reveal_strlit("## Immutable Architecture Laws");
    reveal_strlit("Immutable Architecture Laws");
    reveal_strlit("## Capabilities");
    reveal_strlit("Capabilities");
    let st = initial_state();
    lemma_kind_laws();
    lemma_list_section(st, "Immutable Architecture Laws"@, xs, false);
    let l1 = seq!["## Immutable Architecture Laws"@] + item_lines(xs);
    assert("## Immutable Architecture Laws"@ =~= "## "@ + "Immutable Architecture Laws"@);
    assert(l1 =~= section_lines("Immutable Architecture Laws"@, xs, false));
    lemma_lines_join(l1);
    assert(st.laws + xs =~= xs);
    lemma_kind_capabilities();
    lemma_list_section(st, "Capabilities"@, xs, false);
    let l2 = seq!["## Capabilities"@] + item_lines(xs);
    assert("## Capabilities"@ =~= "## "@ + "Capabilities"@);
    assert(l2 =~= section_lines("Capabilities"@, xs, false));
    lemma_lines_join(l2);
    assert(st.capabilities + xs =~= xs);
}

/// Under `## Workspace Identity`, the lines `* Domain: d`, `* Core
/// Objective: o` and `* Active Brain Layer: b` are read as the domain, the
/// objective and the brain layer.
pub proof fn law_parse_identity(id: IdentityView)
    requires
        identity_ok(id),
    ensures
        parsed(join_lines(identity_lines(id))).identity == id,
{
    lemma_identity_section(initial_state(), id);
    lemma_lines_join(identity_lines(id));
}

} // verus!
