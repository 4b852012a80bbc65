//! The text report: each line as a list of pieces of text, each with the
//! style it is shown in.
use vstd::prelude::*;

use crate::checker::{ClosedView, NotFoundView, closed_views, not_found_views};
use crate::mr::MrIssue;
use crate::text::{decimal, push_decimal, push_str_chars, string_from};
use crate::todo::{display_of, violation_views, ReferenceView, ViolationView};
use crate::{reports_errors, warning_views, CheckOutput, WarningView};

verus! {

/// How a piece of the report is shown.
#[derive(Debug, Clone, Copy, PartialEq, Eq)]
pub enum Style {
    Plain,
    Bold,
    Dimmed,
    Yellow,
    Green,
    RedBold,
    YellowBold,
}

/// A piece of text in a style.
#[derive(Debug)]
pub struct Span {
    pub text: String,
    pub style: Style,
}

impl View for Span {
    type V = (Style, Seq<char>);

    open spec fn view(&self) -> (Style, Seq<char>) {
        (self.style, self.text@)
    }
}

pub open spec fn line_view(l: Vec<Span>) -> Seq<(Style, Seq<char>)> {
    l@.map_values(|s: Span| s@)
}

pub open spec fn lines_view(v: Seq<Vec<Span>>) -> Seq<Seq<(Style, Seq<char>)>> {
    v.map_values(|l: Vec<Span>| line_view(l))
}

/// `  file:line`, file and line in bold.
pub open spec fn location_line(file: Seq<char>, line: u64) -> Seq<(Style, Seq<char>)> {
    seq![
        (Style::Plain, "  "@),
        (Style::Bold, file),
        (Style::Plain, ":"@),
        (Style::Bold, decimal(line as nat)),
    ]
}

/// The source line, indented and dimmed, where there is one.
pub open spec fn source_lines(source: Seq<char>) -> Seq<Seq<(Style, Seq<char>)>> {
    if source.len() > 0 {
        seq![seq![(Style::Plain, "  "@), (Style::Dimmed, source)]]
    } else {
        seq![]
    }
}

/// The lines for a reference with its title or error.
pub open spec fn entry_lines(r: ReferenceView, detail: Seq<char>) -> Seq<Seq<(Style, Seq<char>)>> {
    seq![
        seq![(Style::Yellow, display_of(r.kind)), (Style::Plain, ": "@ + detail)],
        location_line(r.file_path, r.line_number),
    ] + source_lines(r.source_line)
}

pub open spec fn closed_section(s: Seq<ClosedView>) -> Seq<Seq<(Style, Seq<char>)>>
    decreases s.len(),
{
    if s.len() == 0 {
        seq![]
    } else {
        closed_section(s.drop_last()) + entry_lines(s.last().reference, s.last().title)
    }
}

pub open spec fn not_found_section(s: Seq<NotFoundView>) -> Seq<Seq<(Style, Seq<char>)>>
    decreases s.len(),
{
    if s.len() == 0 {
        seq![]
    } else {
        not_found_section(s.drop_last()) + entry_lines(s.last().reference, s.last().error)
    }
}

/// `original -> suggestion`, then where the reference is.
pub open spec fn warning_lines(w: WarningView) -> Seq<Seq<(Style, Seq<char>)>> {
    seq![
        seq![(Style::Yellow, w.original), (Style::Plain, " -> "@), (Style::Green, w.suggestion)],
        location_line(w.reference.file_path, w.reference.line_number),
    ]
}

pub open spec fn warning_section(s: Seq<WarningView>) -> Seq<Seq<(Style, Seq<char>)>>
    decreases s.len(),
{
    if s.len() == 0 {
        seq![]
    } else {
        warning_section(s.drop_last()) + warning_lines(s.last())
    }
}

/// Where the violation is, then its line, indented and dimmed.
pub open spec fn violation_lines(v: ViolationView) -> Seq<Seq<(Style, Seq<char>)>> {
    seq![
        seq![
            (Style::Plain, "  "@),
            (Style::Bold, v.file_path),
            (Style::Plain, ":"@),
            (Style::Bold, decimal(v.line_number as nat)),
        ],
        seq![(Style::Plain, "    "@), (Style::Dimmed, v.source_line)],
    ]
}

pub open spec fn violation_section(s: Seq<ViolationView>) -> Seq<Seq<(Style, Seq<char>)>>
    decreases s.len(),
{
    if s.len() == 0 {
        seq![]
    } else {
        violation_section(s.drop_last()) + violation_lines(s.last())
    }
}

/// A section: its heading, then its lines, where it has any entry.
pub open spec fn section(
    present: bool,
    heading: Seq<(Style, Seq<char>)>,
    body: Seq<Seq<(Style, Seq<char>)>>,
) -> Seq<Seq<(Style, Seq<char>)>> {
    if present {
        seq![heading] + body
    } else {
        seq![]
    }
}

/// The text report of an output: closed references, unresolved ones, the
/// references that can be shortened, a line saying all is well where
/// nothing is wrong, then the invalid TODO-like comments.
pub open spec fn report_lines(o: CheckOutput) -> Seq<Seq<(Style, Seq<char>)>> {
    section(
        o.closed@.len() > 0,
        seq![(Style::RedBold, "TODO comments referencing closed issues/MRs:"@)],
        closed_section(closed_views(o.closed@)),
    ) + section(
        o.not_found@.len() > 0,
        seq![
            (Style::Plain, "\n"@),
            (Style::RedBold, "TODO comments referencing non-existent or inaccessible issues/MRs:"@),
        ],
        not_found_section(not_found_views(o.not_found@)),
    ) + section(
        o.warnings@.len() > 0,
        seq![(Style::Plain, "\n"@), (Style::YellowBold, "TODO references that can be shortened:"@)],
        warning_section(warning_views(o.warnings@)),
    ) + section(
        !reports_errors(o),
        seq![(Style::Green, "All TODO references are valid."@)],
        seq![],
    ) + section(
        o.lint_violations@.len() > 0,
        seq![(Style::Plain, "\n"@), (Style::RedBold, "Invalid TODO-like comments:"@)],
        violation_section(violation_views(o.lint_violations@)),
    )
}

pub open spec fn valid_line() -> Seq<(Style, Seq<char>)> {
    seq![(Style::Green, "All TODO references are valid."@)]
}

pub open spec fn closed_heading() -> Seq<(Style, Seq<char>)> {
    seq![(Style::RedBold, "TODO comments referencing closed issues/MRs:"@)]
}

pub open spec fn not_found_heading() -> Seq<(Style, Seq<char>)> {
    seq![
        (Style::Plain, "\n"@),
        (Style::RedBold, "TODO comments referencing non-existent or inaccessible issues/MRs:"@),
    ]
}

pub open spec fn warnings_heading() -> Seq<(Style, Seq<char>)> {
    seq![(Style::Plain, "\n"@), (Style::YellowBold, "TODO references that can be shortened:"@)]
}

pub open spec fn lint_heading() -> Seq<(Style, Seq<char>)> {
    seq![(Style::Plain, "\n"@), (Style::RedBold, "Invalid TODO-like comments:"@)]
}

/// The first line of the entry of a reference: its short form and its
/// title or error.
pub open spec fn entry_line(r: ReferenceView, detail: Seq<char>) -> Seq<(Style, Seq<char>)> {
    seq![(Style::Yellow, display_of(r.kind)), (Style::Plain, ": "@ + detail)]
}

/// A line of a section's body: two or more pieces, the first yellow or an
/// indentation.
pub open spec fn body_line(l: Seq<(Style, Seq<char>)>) -> bool {
    &&& l.len() >= 2
    &&& (l[0].0 == Style::Yellow || (l[0].0 == Style::Plain && (l[0].1 == "  "@ || l[0].1
        == "    "@)))
}

pub open spec fn all_body(s: Seq<Seq<(Style, Seq<char>)>>) -> bool {
    forall|k: int| 0 <= k < s.len() ==> body_line(#[trigger] s[k])
}

proof fn lemma_add_contains<A>(a: Seq<A>, b: Seq<A>, x: A)
    ensures
        (a + b).contains(x) <==> (a.contains(x) || b.contains(x)),
{
    if (a + b).contains(x) {
        let k = choose|k: int| 0 <= k < (a + b).len() && (a + b)[k] == x;
        if k < a.len() {
            assert(a[k] == x);
        } else {
            assert(b[k - a.len()] == x);
        }
    }
    if a.contains(x) {
        let k = choose|k: int| 0 <= k < a.len() && a[k] == x;
        assert((a + b)[k] == x);
    }
    if b.contains(x) {
        let k = choose|k: int| 0 <= k < b.len() && b[k] == x;
        assert((a + b)[k + a.len()] == x);
    }
}

proof fn lemma_all_body_add(a: Seq<Seq<(Style, Seq<char>)>>, b: Seq<Seq<(Style, Seq<char>)>>)
    requires
        all_body(a),
        all_body(b),
    ensures
        all_body(a + b),
{
    assert forall|k: int| 0 <= k < (a + b).len() implies body_line(#[trigger] (a + b)[k]) by {
        if k < a.len() {
            assert((a + b)[k] == a[k]);
        } else {
            assert((a + b)[k] == b[k - a.len()]);
        }
    }
}

proof fn lemma_entry_body(r: ReferenceView, detail: Seq<char>)
    ensures
        all_body(entry_lines(r, detail)),
        entry_lines(r, detail)[0] == entry_line(r, detail),
{
    reveal_strlit("  ");
    let e = entry_lines(r, detail);
    assert forall|k: int| 0 <= k < e.len() implies body_line(#[trigger] e[k]) by {
        if k == 2 {
            assert(e[k] == seq![(Style::Plain, "  "@), (Style::Dimmed, r.source_line)]);
        }
    }
}

proof fn lemma_closed_section(s: Seq<ClosedView>)
    ensures
        all_body(closed_section(s)),
        forall|k: int|
            0 <= k < s.len() ==> closed_section(s).contains(
                entry_line(#[trigger] s[k].reference, s[k].title),
            ),
    decreases s.len(),
{
    if s.len() > 0 {
        let p = s.drop_last();
        lemma_closed_section(p);
        lemma_entry_body(s.last().reference, s.last().title);
        lemma_all_body_add(closed_section(p), entry_lines(s.last().reference, s.last().title));
        assert forall|k: int| 0 <= k < s.len() implies closed_section(s).contains(
            entry_line(#[trigger] s[k].reference, s[k].title),
        ) by {
            let x = entry_line(s[k].reference, s[k].title);
            lemma_add_contains(closed_section(p), entry_lines(s.last().reference, s.last().title), x);
            if k < s.len() - 1 {
                assert(p[k] == s[k]);
            } else {
                assert(entry_lines(s.last().reference, s.last().title)[0] == x);
            }
        }
    }
}

proof fn lemma_not_found_section(s: Seq<NotFoundView>)
    ensures
        all_body(not_found_section(s)),
        forall|k: int|
            0 <= k < s.len() ==> not_found_section(s).contains(
                entry_line(#[trigger] s[k].reference, s[k].error),
            ),
    decreases s.len(),
{
    if s.len() > 0 {
        let p = s.drop_last();
        lemma_not_found_section(p);
        lemma_entry_body(s.last().reference, s.last().error);
        lemma_all_body_add(not_found_section(p), entry_lines(s.last().reference, s.last().error));
        assert forall|k: int| 0 <= k < s.len() implies not_found_section(s).contains(
            entry_line(#[trigger] s[k].reference, s[k].error),
        ) by {
            let x = entry_line(s[k].reference, s[k].error);
            lemma_add_contains(
                not_found_section(p),
                entry_lines(s.last().reference, s.last().error),
                x,
            );
            if k < s.len() - 1 {
                assert(p[k] == s[k]);
            } else {
                assert(entry_lines(s.last().reference, s.last().error)[0] == x);
            }
        }
    }
}

proof fn lemma_warning_section(s: Seq<WarningView>)
    ensures
        all_body(warning_section(s)),
    decreases s.len(),
{
    reveal_strlit("  ");
    if s.len() > 0 {
        lemma_warning_section(s.drop_last());
        let w = warning_lines(s.last());
        assert(all_body(w)) by {
            assert forall|k: int| 0 <= k < w.len() implies body_line(#[trigger] w[k]) by {}
        }
        lemma_all_body_add(warning_section(s.drop_last()), w);
    }
}

proof fn lemma_violation_section(s: Seq<ViolationView>)
    ensures
        all_body(violation_section(s)),
    decreases s.len(),
{
    reveal_strlit("  ");
    reveal_strlit("    ");
    if s.len() > 0 {
        lemma_violation_section(s.drop_last());
        let w = violation_lines(s.last());
        assert(all_body(w)) by {
            assert forall|k: int| 0 <= k < w.len() implies body_line(#[trigger] w[k]) by {}
        }
        lemma_all_body_add(violation_section(s.drop_last()), w);
    }
}

/// A section holds a line that is no body line exactly when it is present
/// and the line is its heading.
proof fn lemma_section_contains(
    present: bool,
    heading: Seq<(Style, Seq<char>)>,
    body: Seq<Seq<(Style, Seq<char>)>>,
    x: Seq<(Style, Seq<char>)>,
)
    requires
        all_body(body),
        !body_line(x),
    ensures
        section(present, heading, body).contains(x) <==> (present && x == heading),
{
    if present {
        lemma_add_contains(seq![heading], body, x);
        if body.contains(x) {
            let k = choose|k: int| 0 <= k < body.len() && body[k] == x;
        }
        if seq![heading].contains(x) {
            let k = choose|k: int| 0 <= k < 1 && seq![heading][k] == x;
        }
        if x == heading {
            assert(seq![heading][0] == x);
        }
    }
}

/// The text report holds the line saying that all references are valid
/// exactly when nothing is wrong, and each section heading exactly when its
/// section has entries; each closed or unresolved reference has its line
/// with its short form and its title or error.
pub proof fn law_report_sections(o: CheckOutput)
    ensures
        report_lines(o).contains(valid_line()) <==> !reports_errors(o),
        report_lines(o).contains(closed_heading()) <==> o.closed@.len() > 0,
        report_lines(o).contains(not_found_heading()) <==> o.not_found@.len() > 0,
        report_lines(o).contains(warnings_heading()) <==> o.warnings@.len() > 0,
        report_lines(o).contains(lint_heading()) <==> o.lint_violations@.len() > 0,
        forall|k: int|
            0 <= k < o.closed@.len() ==> report_lines(o).contains(
                entry_line((#[trigger] o.closed@[k]).reference@, o.closed@[k].title@),
            ),
        forall|k: int|
            0 <= k < o.not_found@.len() ==> report_lines(o).contains(
                entry_line((#[trigger] o.not_found@[k]).reference@, o.not_found@[k].error@),
            ),
{
    reveal_strlit("  ");
    reveal_strlit("    ");
    reveal_strlit("\n");
    reveal_strlit("TODO comments referencing non-existent or inaccessible issues/MRs:");
    reveal_strlit("TODO references that can be shortened:");
    reveal_strlit("Invalid TODO-like comments:");
    let cv = closed_views(o.closed@);
    let nv = not_found_views(o.not_found@);
    let wv = warning_views(o.warnings@);
    let vv = violation_views(o.lint_violations@);
    lemma_closed_section(cv);
    lemma_not_found_section(nv);
    lemma_warning_section(wv);
    lemma_violation_section(vv);
    let s1 = section(o.closed@.len() > 0, closed_heading(), closed_section(cv));
    let s2 = section(o.not_found@.len() > 0, not_found_heading(), not_found_section(nv));
    let s3 = section(o.warnings@.len() > 0, warnings_heading(), warning_section(wv));
    let s4 = section(!reports_errors(o), valid_line(), seq![]);
    let s5 = section(o.lint_violations@.len() > 0, lint_heading(), violation_section(vv));
    assert(report_lines(o) == s1 + s2 + s3 + s4 + s5);
    assert(all_body(Seq::<Seq<(Style, Seq<char>)>>::empty()));
    assert("\n"@.len() == 1);
    assert("  "@.len() == 2);
    assert("    "@.len() == 4);
    assert("\n"@ != "  "@);
    assert("\n"@ != "    "@);
    assert("Invalid TODO-like comments:"@.len() == 27);
    assert("TODO comments referencing non-existent or inaccessible issues/MRs:"@.len() == 66);
    assert(!body_line(valid_line()));
    assert(!body_line(closed_heading()));
    assert(!body_line(not_found_heading()));
    assert(!body_line(warnings_heading()));
    assert(!body_line(lint_heading()));
    let hs = seq![valid_line(), closed_heading(), not_found_heading(), warnings_heading(), lint_heading()];
    assert(valid_line() != closed_heading());
    assert(not_found_heading()[1] != warnings_heading()[1]);
    assert(not_found_heading()[1] != lint_heading()[1]);
    assert(warnings_heading()[1] != lint_heading()[1]);
    assert forall|x: Seq<(Style, Seq<char>)>| #[trigger] hs.contains(x) implies report_lines(o).contains(x)
        <==> ((o.closed@.len() > 0 && x == closed_heading()) || (o.not_found@.len() > 0 && x
        == not_found_heading()) || (o.warnings@.len() > 0 && x == warnings_heading()) || (
    !reports_errors(o) && x == valid_line()) || (o.lint_violations@.len() > 0 && x
        == lint_heading())) by {
        lemma_add_contains(s1, s2, x);
        lemma_add_contains(s1 + s2, s3, x);
        lemma_add_contains(s1 + s2 + s3, s4, x);
        lemma_add_contains(s1 + s2 + s3 + s4, s5, x);
        let k = choose|k: int| 0 <= k < hs.len() && hs[k] == x;
        lemma_section_contains(o.closed@.len() > 0, closed_heading(), closed_section(cv), x);
        lemma_section_contains(o.not_found@.len() > 0, not_found_heading(), not_found_section(nv), x);
        lemma_section_contains(o.warnings@.len() > 0, warnings_heading(), warning_section(wv), x);
        lemma_section_contains(!reports_errors(o), valid_line(), seq![], x);
        lemma_section_contains(o.lint_violations@.len() > 0, lint_heading(), violation_section(vv), x);
    }
    assert(hs.contains(valid_line())) by { assert(hs[0] == valid_line()); }
    assert(hs.contains(closed_heading())) by { assert(hs[1] == closed_heading()); }
    assert(hs.contains(not_found_heading())) by { assert(hs[2] == not_found_heading()); }
    assert(hs.contains(warnings_heading())) by { assert(hs[3] == warnings_heading()); }
    assert(hs.contains(lint_heading())) by { assert(hs[4] == lint_heading()); }
    assert forall|k: int| 0 <= k < o.closed@.len() implies report_lines(o).contains(
        entry_line((#[trigger] o.closed@[k]).reference@, o.closed@[k].title@),
    ) by {
        let x = entry_line(o.closed@[k].reference@, o.closed@[k].title@);
        assert(cv[k] == o.closed@[k]@);
        assert(cv[k].reference == o.closed@[k].reference@ && cv[k].title == o.closed@[k].title@);
        assert(x == entry_line(cv[k].reference, cv[k].title));
        assert(closed_section(cv).contains(x));
        lemma_add_contains(seq![closed_heading()], closed_section(cv), x);
        lemma_add_contains(s1, s2, x);
        lemma_add_contains(s1 + s2, s3, x);
        lemma_add_contains(s1 + s2 + s3, s4, x);
        lemma_add_contains(s1 + s2 + s3 + s4, s5, x);
    }
    assert forall|k: int| 0 <= k < o.not_found@.len() implies report_lines(o).contains(
        entry_line((#[trigger] o.not_found@[k]).reference@, o.not_found@[k].error@),
    ) by {
        let x = entry_line(o.not_found@[k].reference@, o.not_found@[k].error@);
        assert(nv[k] == o.not_found@[k]@);
        assert(nv[k].reference == o.not_found@[k].reference@ && nv[k].error == o.not_found@[k].error@);
        assert(x == entry_line(nv[k].reference, nv[k].error));
        assert(not_found_section(nv).contains(x));
        lemma_add_contains(seq![not_found_heading()], not_found_section(nv), x);
        lemma_add_contains(s1, s2, x);
        lemma_add_contains(s1 + s2, s3, x);
        lemma_add_contains(s1 + s2 + s3, s4, x);
        lemma_add_contains(s1 + s2 + s3 + s4, s5, x);
    }
}

fn span(style: Style, text: &str) -> (s: Span)
    ensures
        s@ == (style, text@),
{
    Span { text: string_from(text), style }
}

fn push_span(l: &mut Vec<Span>, s: Span)
    ensures
        line_view(*final(l)) == line_view(*old(l)).push(s@),
{
    let ghost before = *l;
    l.push(s);
    assert(line_view(*l) =~= line_view(before).push(s@));
}

fn push_line(out: &mut Vec<Vec<Span>>, l: Vec<Span>)
    ensures
        lines_view(final(out)@) == lines_view(old(out)@).push(line_view(l)),
{
    let ghost before = out@;
    out.push(l);
    assert(lines_view(out@) =~= lines_view(before).push(line_view(l)));
}

fn decimal_string(n: u64) -> (s: String)
    ensures
        s@ == decimal(n as nat),
{
    let mut s = String::new();
    push_decimal(&mut s, n);
    s
}

fn location(file: &str, line: u64) -> (l: Vec<Span>)
    ensures
        line_view(l) == location_line(file@, line),
{
    let mut l: Vec<Span> = Vec::new();
    push_span(&mut l, span(Style::Plain, "  "));
    push_span(&mut l, span(Style::Bold, file));
    push_span(&mut l, span(Style::Plain, ":"));
    push_span(&mut l, Span { text: decimal_string(line), style: Style::Bold });
    assert(line_view(l) =~= location_line(file@, line));
    l
}

fn push_entry(out: &mut Vec<Vec<Span>>, r: &crate::todo::TodoReference, detail: &str)
    ensures
        lines_view(final(out)@) == lines_view(old(out)@) + entry_lines(r@, detail@),
{
    let ghost start = lines_view(out@);
    let mut first: Vec<Span> = Vec::new();
    push_span(&mut first, Span { text: r.display(), style: Style::Yellow });
    let mut d = string_from(": ");
    push_str_chars(&mut d, detail);
    push_span(&mut first, Span { text: d, style: Style::Plain });
    let ghost first_view = line_view(first);
    assert(first_view =~= seq![(Style::Yellow, display_of(r@.kind)), (Style::Plain, ": "@ + detail@)]);
    push_line(out, first);
    let loc = location(r.file_path(), r.line_number());
    let ghost loc_view = line_view(loc);
    push_line(out, loc);
    let source = r.source_line();
    let sv = crate::text::chars_of(source);
    if sv.len() > 0 {
        let mut third: Vec<Span> = Vec::new();
        push_span(&mut third, span(Style::Plain, "  "));
        push_span(&mut third, span(Style::Dimmed, source));
        let ghost third_view = line_view(third);
        assert(third_view =~= seq![(Style::Plain, "  "@), (Style::Dimmed, r@.source_line)]);
        push_line(out, third);
        assert(lines_view(out@) =~= start + entry_lines(r@, detail@));
    } else {
        assert(lines_view(out@) =~= start + entry_lines(r@, detail@));
    }
}

fn push_heading(out: &mut Vec<Vec<Span>>, newline: bool, style: Style, text: &str)
    ensures
        lines_view(final(out)@) == lines_view(old(out)@).push(
            if newline {
                seq![(Style::Plain, "\n"@), (style, text@)]
            } else {
                seq![(style, text@)]
            },
        ),
{
    let mut l: Vec<Span> = Vec::new();
    if newline {
        push_span(&mut l, span(Style::Plain, "\n"));
    }
    push_span(&mut l, span(style, text));
    assert(line_view(l) =~= (if newline {
        seq![(Style::Plain, "\n"@), (style, text@)]
    } else {
        seq![(style, text@)]
    }));
    push_line(out, l);
}

/// The lines of the text report of `output`, in order.
pub fn text_report(output: &CheckOutput) -> (r: Vec<Vec<Span>>)
    ensures
        lines_view(r@) == report_lines(*output),
{
    let mut out: Vec<Vec<Span>> = Vec::new();
    let ghost o = *output;

    // closed references
    if output.closed.len() > 0 {
        push_heading(&mut out, false, Style::RedBold, "TODO comments referencing closed issues/MRs:");
        let ghost base = lines_view(out@);
        let mut i: usize = 0;
        while i < output.closed.len()
            invariant
                0 <= i <= output.closed@.len(),
                lines_view(out@) == base + closed_section(closed_views(output.closed@).take(i as int)),
            decreases output.closed.len() - i,
        {
            let ghost pre = closed_views(output.closed@).take(i as int);
            assert(closed_views(output.closed@).take(i + 1).drop_last() == pre);
            let c = &output.closed[i];
            push_entry(&mut out, &c.reference, c.title.as_str());
            assert(base + closed_section(pre) + entry_lines(c.reference@, c.title@) =~= base
                + (closed_section(pre) + entry_lines(c.reference@, c.title@)));
            i = i + 1;
        }
        assert(closed_views(output.closed@).take(output.closed@.len() as int) == closed_views(
            output.closed@,
        ));
    }
    let ghost after_closed = lines_view(out@);
    assert(after_closed == section(
        o.closed@.len() > 0,
        seq![(Style::RedBold, "TODO comments referencing closed issues/MRs:"@)],
        closed_section(closed_views(o.closed@)),
    ));

    // unresolved references
    if output.not_found.len() > 0 {
        push_heading(
            &mut out,
            true,
            Style::RedBold,
            "TODO comments referencing non-existent or inaccessible issues/MRs:",
        );
        let ghost base = lines_view(out@);
        let mut i: usize = 0;
        while i < output.not_found.len()
            invariant
                0 <= i <= output.not_found@.len(),
                lines_view(out@) == base + not_found_section(
                    not_found_views(output.not_found@).take(i as int),
                ),
            decreases output.not_found.len() - i,
        {
            let ghost pre = not_found_views(output.not_found@).take(i as int);
            assert(not_found_views(output.not_found@).take(i + 1).drop_last() == pre);
            let c = &output.not_found[i];
            push_entry(&mut out, &c.reference, c.error.as_str());
            assert(base + not_found_section(pre) + entry_lines(c.reference@, c.error@) =~= base
                + (not_found_section(pre) + entry_lines(c.reference@, c.error@)));
            i = i + 1;
        }
        assert(not_found_views(output.not_found@).take(output.not_found@.len() as int)
            == not_found_views(output.not_found@));
    }
    let ghost after_not_found = lines_view(out@);
    assert(after_not_found =~= after_closed + section(
        o.not_found@.len() > 0,
        seq![
            (Style::Plain, "\n"@),
            (Style::RedBold, "TODO comments referencing non-existent or inaccessible issues/MRs:"@),
        ],
        not_found_section(not_found_views(o.not_found@)),
    ));

    // references that can be shortened
    if output.warnings.len() > 0 {
        push_heading(&mut out, true, Style::YellowBold, "TODO references that can be shortened:");
        let ghost base = lines_view(out@);
        let mut i: usize = 0;
        while i < output.warnings.len()
            invariant
                0 <= i <= output.warnings@.len(),
                lines_view(out@) == base + warning_section(
                    warning_views(output.warnings@).take(i as int),
                ),
            decreases output.warnings.len() - i,
        {
            let ghost pre = warning_views(output.warnings@).take(i as int);
            let ghost before = lines_view(out@);
            assert(warning_views(output.warnings@).take(i + 1).drop_last() == pre);
            let w = &output.warnings[i];
            let mut first: Vec<Span> = Vec::new();
            push_span(&mut first, span(Style::Yellow, w.original.as_str()));
            push_span(&mut first, span(Style::Plain, " -> "));
            push_span(&mut first, span(Style::Green, w.suggestion.as_str()));
            assert(line_view(first) =~= seq![
                (Style::Yellow, w@.original),
                (Style::Plain, " -> "@),
                (Style::Green, w@.suggestion),
            ]);
            push_line(&mut out, first);
            let loc = location(w.reference.file_path(), w.reference.line_number());
            push_line(&mut out, loc);
            assert(lines_view(out@) =~= before + warning_lines(w@));
            assert(base + warning_section(pre) + warning_lines(w@) =~= base + (warning_section(pre)
                + warning_lines(w@)));
            i = i + 1;
        }
        assert(warning_views(output.warnings@).take(output.warnings@.len() as int) == warning_views(
            output.warnings@,
        ));
    }
    let ghost after_warnings = lines_view(out@);
    assert(after_warnings =~= after_not_found + section(
        o.warnings@.len() > 0,
        seq![(Style::Plain, "\n"@), (Style::YellowBold, "TODO references that can be shortened:"@)],
        warning_section(warning_views(o.warnings@)),
    ));

    // all is well
    if !output.has_errors() {
        push_heading(&mut out, false, Style::Green, "All TODO references are valid.");
    }
    let ghost after_valid = lines_view(out@);
    assert(after_valid =~= after_warnings + section(
        !reports_errors(o),
        seq![(Style::Green, "All TODO references are valid."@)],
        seq![],
    ));

    // invalid TODO-like comments
    if output.lint_violations.len() > 0 {
        push_heading(&mut out, true, Style::RedBold, "Invalid TODO-like comments:");
        let ghost base = lines_view(out@);
        let mut i: usize = 0;
        while i < output.lint_violations.len()
            invariant
                0 <= i <= output.lint_violations@.len(),
                lines_view(out@) == base + violation_section(
                    violation_views(output.lint_violations@).take(i as int),
                ),
            decreases output.lint_violations.len() - i,
        {
            let ghost pre = violation_views(output.lint_violations@).take(i as int);
            let ghost before = lines_view(out@);
            assert(violation_views(output.lint_violations@).take(i + 1).drop_last() == pre);
            let v = &output.lint_violations[i];
            let loc = location(v.file_path.as_str(), v.line_number);
            push_line(&mut out, loc);
            let mut second: Vec<Span> = Vec::new();
            push_span(&mut second, span(Style::Plain, "    "));
            push_span(&mut second, span(Style::Dimmed, v.source_line.as_str()));
            assert(line_view(second) =~= seq![(Style::Plain, "    "@), (Style::Dimmed, v@.source_line)]);
            push_line(&mut out, second);
            assert(lines_view(out@) =~= before + violation_lines(v@));
            assert(base + violation_section(pre) + violation_lines(v@) =~= base + (violation_section(
                pre,
            ) + violation_lines(v@)));
            i = i + 1;
        }
        assert(violation_views(output.lint_violations@).take(output.lint_violations@.len() as int)
            == violation_views(output.lint_violations@));
    }
    assert(lines_view(out@) =~= after_valid + section(
        o.lint_violations@.len() > 0,
        seq![(Style::Plain, "\n"@), (Style::RedBold, "Invalid TODO-like comments:"@)],
        violation_section(violation_views(o.lint_violations@)),
    ));
    out
}

/// One line per closed issue: `#n` and how many references it has.
pub open spec fn mr_issue_lines(s: Seq<MrIssue>) -> Seq<Seq<(Style, Seq<char>)>>
    decreases s.len(),
{
    if s.len() == 0 {
        seq![]
    } else {
        mr_issue_lines(s.drop_last()).push(
            seq![
                (Style::Yellow, "#"@ + decimal(s.last().issue_number as nat)),
                (
                    Style::Plain,
                    ": "@ + decimal(s.last().references@.len()) + " reference(s) found"@,
                ),
            ],
        )
    }
}

/// The text report of the merge request check.
pub open spec fn mr_report_lines(s: Seq<MrIssue>) -> Seq<Seq<(Style, Seq<char>)>> {
    if s.len() == 0 {
        seq![seq![(Style::Green, "No TODOs reference issues closed by this MR."@)]]
    } else {
        seq![seq![(Style::YellowBold, "TODO comments that will be closed by this MR:"@)]]
            + mr_issue_lines(s)
    }
}

/// The lines of the text report of the merge request check.
pub fn mr_text_report(mr_issues: &Vec<MrIssue>) -> (r: Vec<Vec<Span>>)
    ensures
        lines_view(r@) == mr_report_lines(mr_issues@),
{
    let mut out: Vec<Vec<Span>> = Vec::new();
    if mr_issues.len() == 0 {
        push_heading(&mut out, false, Style::Green, "No TODOs reference issues closed by this MR.");
        return out;
    }
    push_heading(&mut out, false, Style::YellowBold, "TODO comments that will be closed by this MR:");
    let ghost base = lines_view(out@);
    let mut i: usize = 0;
    while i < mr_issues.len()
        invariant
            0 <= i <= mr_issues@.len(),
            lines_view(out@) == base + mr_issue_lines(mr_issues@.take(i as int)),
        decreases mr_issues.len() - i,
    {
        assert(mr_issues@.take(i + 1).drop_last() == mr_issues@.take(i as int));
        let m = &mr_issues[i];
        let mut l: Vec<Span> = Vec::new();
        let mut n = string_from("#");
        push_decimal(&mut n, m.issue_number as u64);
        push_span(&mut l, Span { text: n, style: Style::Yellow });
        let mut c = string_from(": ");
        push_decimal(&mut c, m.references.len() as u64);
        push_str_chars(&mut c, " reference(s) found");
        push_span(&mut l, Span { text: c, style: Style::Plain });
        let ghost lv = line_view(l);
        push_line(&mut out, l);
        assert(lv =~= mr_issue_lines(mr_issues@.take(i + 1)).last());
        assert(base + mr_issue_lines(mr_issues@.take(i + 1)) =~= (base + mr_issue_lines(
            mr_issues@.take(i as int),
        )).push(lv));
        i = i + 1;
    }
    assert(mr_issues@.take(mr_issues@.len() as int) == mr_issues@);
    out
}

/// `"failure"` when the merge request closes issues that TODO comments
/// still refer to, `"success"` otherwise.
pub fn mr_status(mr_issues: &Vec<MrIssue>) -> (s: String)
    ensures
        s@ == crate::status_text(mr_issues@.len() > 0),
{
    if mr_issues.len() > 0 {
        string_from("failure")
    } else {
        string_from("success")
    }
}

} // verus!
