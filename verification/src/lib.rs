//! Finds TODO comments that reference GitHub and GitLab issues, merge
//! requests and epics, checks how they are written, and decides what to
//! report about them.
use vstd::prelude::*;

pub mod checker;
pub mod mr;
pub mod order;
pub mod report;
pub mod scan;
pub mod shortening;
pub mod status;
pub mod text;
pub mod todo;
pub mod token;

use crate::order::{Key, Keyed};
use crate::todo::{ReferenceView, TodoReference};

verus! {

/// A URL-form reference and the shorter form it can be written in.
#[derive(Debug)]
pub struct ReferenceWarning {
    pub reference: TodoReference,
    pub original: String,
    pub suggestion: String,
}

pub struct WarningView {
    pub reference: ReferenceView,
    pub original: Seq<char>,
    pub suggestion: Seq<char>,
}

impl View for ReferenceWarning {
    type V = WarningView;

    open spec fn view(&self) -> WarningView {
        WarningView {
            reference: self.reference@,
            original: self.original@,
            suggestion: self.suggestion@,
        }
    }
}

impl Clone for ReferenceWarning {
    fn clone(&self) -> (r: Self)
        ensures
            r@ == self@,
    {
        ReferenceWarning {
            reference: self.reference.clone(),
            original: self.original.clone(),
            suggestion: self.suggestion.clone(),
        }
    }
}

/// Warnings are reported by file, line, then original text.
pub open spec fn warning_key(w: WarningView) -> Key {
    (w.reference.file_path, w.reference.line_number, w.original)
}

impl Keyed for ReferenceWarning {
    open spec fn key(&self) -> Key {
        warning_key(self@)
    }

    fn key_chars(&self) -> (r: (Vec<char>, u64, Vec<char>)) {
        (
            crate::text::chars_of(self.reference.file_path.as_str()),
            self.reference.line_number,
            crate::text::chars_of(self.original.as_str()),
        )
    }
}

} // verus!

verus! {

pub open spec fn warning_views(s: Seq<ReferenceWarning>) -> Seq<WarningView> {
    s.map_values(|w: ReferenceWarning| w@)
}

/// The warnings that `refs` raise, in order.
pub open spec fn suggestions(refs: Seq<ReferenceView>, d: crate::checker::ProjectView) -> Seq<
    WarningView,
>
    decreases refs.len(),
{
    if refs.len() == 0 {
        seq![]
    } else {
        let rest = suggestions(refs.drop_last(), d);
        match crate::todo::suggestion_of(refs.last(), d) {
            Some(w) => rest.push(w),
            None => rest,
        }
    }
}

/// Two warnings are the same report when they agree on file, line,
/// original text and suggestion.
pub open spec fn same_report(a: WarningView, b: WarningView) -> bool {
    &&& a.reference.file_path == b.reference.file_path
    &&& a.reference.line_number == b.reference.line_number
    &&& a.original == b.original
    &&& a.suggestion == b.suggestion
}

/// `s` with every warning that repeats an earlier report left out.
pub open spec fn first_reports(s: Seq<WarningView>) -> Seq<WarningView>
    decreases s.len(),
{
    if s.len() == 0 {
        seq![]
    } else {
        let rest = first_reports(s.drop_last());
        if exists|j: int| 0 <= j < s.len() - 1 && same_report(#[trigger] s[j], s.last()) {
            rest
        } else {
            rest.push(s.last())
        }
    }
}

pub open spec fn warning_key_fn() -> spec_fn(WarningView) -> Key {
    |w: WarningView| warning_key(w)
}

/// `out` is `input` in report order: by file, line and original text, and
/// in input order where those agree.
pub open spec fn in_report_order(input: Seq<WarningView>, out: Seq<WarningView>) -> bool {
    exists|perm: Seq<int>| #[trigger] crate::order::stable_arrangement_by(input, out, perm, warning_key_fn())
}

/// The warnings for the URL-form references among `references`, each
/// report once, in report order.
pub open spec fn url_shortening_warnings(
    d: crate::checker::ProjectView,
    references: Seq<ReferenceView>,
    out: Seq<WarningView>,
) -> bool {
    in_report_order(first_reports(suggestions(references, d)), out)
}

/// No warning before position `i` of `s` is the same report as `s[i]`.
pub open spec fn first_of_report(s: Seq<WarningView>, i: int) -> bool {
    forall|j: int| 0 <= j < i ==> !same_report(#[trigger] s[j], s[i])
}

/// Some warning of `t` is the same report as `w`.
pub open spec fn has_report_in(t: Seq<WarningView>, w: WarningView) -> bool {
    exists|k: int| 0 <= k < t.len() && same_report(#[trigger] t[k], w)
}

/// `x` is a warning of `s` that no earlier warning of `s` repeats.
pub open spec fn kept_report(s: Seq<WarningView>, x: WarningView) -> bool {
    exists|i: int| 0 <= i < s.len() && s[i] == x && first_of_report(s, i)
}

proof fn lemma_first_reports(s: Seq<WarningView>)
    ensures
        forall|k: int, l: int|
            0 <= k < l < first_reports(s).len() ==> !same_report(
                #[trigger] first_reports(s)[k],
                #[trigger] first_reports(s)[l],
            ),
        forall|k: int|
            0 <= k < first_reports(s).len() ==> kept_report(s, #[trigger] first_reports(s)[k]),
        forall|i: int| 0 <= i < s.len() ==> #[trigger] has_report_in(first_reports(s), s[i]),
    decreases s.len(),
{
    if s.len() > 0 {
        let p = s.drop_last();
        let fp = first_reports(p);
        let last = s.last();
        lemma_first_reports(p);
        assert forall|i: int, j: int| 0 <= j < i < p.len() implies p[j] == s[j] && p[i] == s[i] by {}
        assert forall|x: WarningView| kept_report(p, x) implies kept_report(s, x) by {
            let i = choose|i: int| 0 <= i < p.len() && p[i] == x && first_of_report(p, i);
            assert(s[i] == x);
            assert forall|j: int| 0 <= j < i implies !same_report(#[trigger] s[j], s[i]) by {
                assert(p[j] == s[j]);
            }
        }
        if exists|j: int| 0 <= j < s.len() - 1 && same_report(#[trigger] s[j], s.last()) {
            let j = choose|j: int| 0 <= j < s.len() - 1 && same_report(#[trigger] s[j], s.last());
            assert(first_reports(s) == fp);
            assert(p[j] == s[j]);
            assert(has_report_in(fp, p[j]));
            let k0 = choose|k: int| 0 <= k < fp.len() && same_report(#[trigger] fp[k], p[j]);
            assert forall|i: int| 0 <= i < s.len() implies #[trigger] has_report_in(
                first_reports(s),
                s[i],
            ) by {
                if i < s.len() - 1 {
                    assert(p[i] == s[i]);
                    assert(has_report_in(fp, p[i]));
                } else {
                    assert(same_report(fp[k0], s[i]));
                }
            }
            assert forall|k: int| 0 <= k < first_reports(s).len() implies kept_report(
                s,
                #[trigger] first_reports(s)[k],
            ) by {
                assert(kept_report(p, fp[k]));
            }
        } else {
            let fr = fp.push(last);
            assert(first_reports(s) == fr);
            assert(first_of_report(s, s.len() - 1));
            assert(kept_report(s, last)) by {
                assert(s[s.len() - 1] == last);
            }
            assert forall|k: int| 0 <= k < fr.len() implies kept_report(s, #[trigger] fr[k]) by {
                if k < fp.len() {
                    assert(fr[k] == fp[k]);
                    assert(kept_report(p, fp[k]));
                }
            }
            assert forall|k: int, l: int| 0 <= k < l < fr.len() implies !same_report(
                #[trigger] fr[k],
                #[trigger] fr[l],
            ) by {
                if l == fp.len() {
                    assert(kept_report(p, fp[k]));
                    let i = choose|i: int| 0 <= i < p.len() && p[i] == fp[k] && first_of_report(p, i);
                    assert(s[i] == p[i]);
                    assert(!same_report(s[i], s.last()));
                } else {
                    assert(fr[k] == fp[k] && fr[l] == fp[l]);
                }
            }
            assert forall|i: int| 0 <= i < s.len() implies #[trigger] has_report_in(fr, s[i]) by {
                if i < s.len() - 1 {
                    assert(p[i] == s[i]);
                    assert(has_report_in(fp, p[i]));
                    let k = choose|k: int| 0 <= k < fp.len() && same_report(#[trigger] fp[k], p[i]);
                    assert(fr[k] == fp[k]);
                } else {
                    assert(fr[fp.len() as int] == s[i]);
                }
            }
        }
    }
}

/// The warnings for a list of references are determined: two lists that
/// both meet `url_shortening_warnings` for the same references are equal.
pub proof fn law_url_shortening_warnings_determined(
    d: crate::checker::ProjectView,
    references: Seq<ReferenceView>,
    a: Seq<WarningView>,
    b: Seq<WarningView>,
)
    requires
        url_shortening_warnings(d, references, a),
        url_shortening_warnings(d, references, b),
    ensures
        a == b,
{
    let input = first_reports(suggestions(references, d));
    let pa = choose|perm: Seq<int>|
        #[trigger] crate::order::stable_arrangement_by(input, a, perm, warning_key_fn());
    let pb = choose|perm: Seq<int>|
        #[trigger] crate::order::stable_arrangement_by(input, b, perm, warning_key_fn());
    crate::order::lemma_stable_arrangement_unique(input, a, pa, b, pb, warning_key_fn());
}

/// The warnings for a list of references are sorted by file, line and
/// original text; no two are the same report (file, line, original text
/// and suggestion); each is a warning of some reference that no earlier
/// reference's warning repeats; and every reference's warning has its report
/// among them.
pub proof fn law_url_shortening_warnings_shape(
    d: crate::checker::ProjectView,
    references: Seq<ReferenceView>,
    out: Seq<WarningView>,
)
    requires
        url_shortening_warnings(d, references, out),
    ensures
        forall|k: int, l: int|
            0 <= k < l < out.len() ==> !crate::order::key_lt(
                warning_key(#[trigger] out[l]),
                warning_key(#[trigger] out[k]),
            ),
        forall|k: int, l: int|
            0 <= k < l < out.len() ==> !same_report(#[trigger] out[k], #[trigger] out[l]),
        forall|k: int|
            0 <= k < out.len() ==> kept_report(suggestions(references, d), #[trigger] out[k]),
        forall|i: int|
            0 <= i < suggestions(references, d).len() ==> #[trigger] has_report_in(
                out,
                suggestions(references, d)[i],
            ),
{
    let sg = suggestions(references, d);
    let input = first_reports(sg);
    lemma_first_reports(sg);
    let perm = choose|perm: Seq<int>|
        #[trigger] crate::order::stable_arrangement_by(input, out, perm, warning_key_fn());
    crate::order::lemma_indices_onto(perm, input.len() as int);
    assert forall|k: int, l: int| 0 <= k < l < out.len() implies !crate::order::key_lt(
        warning_key(#[trigger] out[l]),
        warning_key(#[trigger] out[k]),
    ) by {
        assert(warning_key_fn()(out[k]) == warning_key(out[k]));
        assert(warning_key_fn()(out[l]) == warning_key(out[l]));
        crate::order::lemma_key_irreflexive(warning_key(out[k]));
        if crate::order::key_lt(warning_key(out[l]), warning_key(out[k])) && crate::order::key_lt(
            warning_key(out[k]),
            warning_key(out[l]),
        ) {
            crate::order::lemma_key_transitive(
                warning_key(out[k]),
                warning_key(out[l]),
                warning_key(out[k]),
            );
        }
    }
    assert forall|k: int, l: int| 0 <= k < l < out.len() implies !same_report(
        #[trigger] out[k],
        #[trigger] out[l],
    ) by {
        let (x, y) = (perm[k], perm[l]);
        assert(out[k] == input[x] && out[l] == input[y]);
        if x < y {
            assert(!same_report(input[x], input[y]));
        } else {
            assert(!same_report(input[y], input[x]));
        }
    }
    assert forall|k: int| 0 <= k < out.len() implies kept_report(sg, #[trigger] out[k]) by {
        assert(out[k] == input[perm[k]]);
        assert(kept_report(sg, input[perm[k]]));
    }
    assert forall|i: int| 0 <= i < sg.len() implies #[trigger] has_report_in(out, sg[i]) by {
        assert(has_report_in(input, sg[i]));
        let j = choose|j: int| 0 <= j < input.len() && same_report(#[trigger] input[j], sg[i]);
        assert(crate::order::index_taken(perm, j));
        let k = choose|k: int| 0 <= k < perm.len() && perm[k] == j;
        assert(out[k] == input[j]);
    }
}

fn same_report_exec(a: &ReferenceWarning, b: &ReferenceWarning) -> (r: bool)
    ensures
        r == same_report(a@, b@),
{
    a.reference.line_number == b.reference.line_number && crate::todo::string_eq(
        &a.reference.file_path,
        &b.reference.file_path,
    ) && crate::todo::string_eq(&a.original, &b.original) && crate::todo::string_eq(
        &a.suggestion,
        &b.suggestion,
    )
}

proof fn lemma_views_of_arrangement(
    a: Seq<ReferenceWarning>,
    b: Seq<ReferenceWarning>,
    perm: Seq<int>,
)
    requires
        crate::order::stable_arrangement_by(a, b, perm, crate::order::item_key::<ReferenceWarning>()),
    ensures
        crate::order::stable_arrangement_by(warning_views(a), warning_views(b), perm, warning_key_fn()),
{
    let va = warning_views(a);
    let vb = warning_views(b);
    assert forall|k: int| 0 <= k < perm.len() implies #[trigger] vb[k] == va[perm[k]] by {
        assert(b[k] == a[perm[k]]);
    }
    assert forall|k: int, l: int| 0 <= k < l < vb.len() implies crate::order::key_lt(
        warning_key_fn()(vb[k]),
        warning_key_fn()(vb[l]),
    ) || (warning_key_fn()(vb[k]) == warning_key_fn()(vb[l]) && perm[k] < perm[l]) by {
        assert(crate::order::item_key::<ReferenceWarning>()(b[k]) == warning_key_fn()(vb[k]));
        assert(crate::order::item_key::<ReferenceWarning>()(b[l]) == warning_key_fn()(vb[l]));
    }
}

/// Whether some warning of `kept` is the same report as `w`.
fn has_report(kept: &Vec<ReferenceWarning>, w: &ReferenceWarning) -> (r: bool)
    ensures
        r == exists|b: int| 0 <= b < kept@.len() && same_report(#[trigger] kept@[b]@, w@),
{
    let mut k: usize = 0;
    while k < kept.len()
        invariant
            0 <= k <= kept@.len(),
            forall|b: int| 0 <= b < k ==> !same_report(#[trigger] kept@[b]@, w@),
        decreases kept.len() - k,
    {
        if same_report_exec(&kept[k], w) {
            return true;
        }
        k = k + 1;
    }
    false
}

/// The warnings that `references` raise, in order.
fn gather_suggestions(
    project_detection: &crate::checker::ProjectDetection,
    references: &[TodoReference],
) -> (r: Vec<ReferenceWarning>)
    ensures
        warning_views(r@) == suggestions(crate::scan::ref_views(references@), project_detection@),
{
    let ghost refs = crate::scan::ref_views(references@);
    let mut candidates: Vec<ReferenceWarning> = Vec::new();
    let mut i: usize = 0;
    while i < references.len()
        invariant
            refs == crate::scan::ref_views(references@),
            0 <= i <= references@.len(),
            warning_views(candidates@) == suggestions(refs.take(i as int), project_detection@),
        decreases references.len() - i,
    {
        assert(refs.take(i + 1).drop_last() == refs.take(i as int));
        assert(refs.take(i + 1).last() == references@[i as int]@);
        let ghost prev = candidates@;
        match references[i].suggest_simplified_format(project_detection) {
            Some(w) => {
                candidates.push(w);
                assert(warning_views(candidates@) =~= warning_views(prev).push(w@));
            },
            None => {},
        }
        i = i + 1;
    }
    assert(refs.take(refs.len() as int) == refs);
    candidates
}

spec fn reported(kv: Seq<WarningView>, w: WarningView) -> bool {
    exists|b: int| 0 <= b < kv.len() && same_report(#[trigger] kv[b], w)
}

/// `kv` picks warnings of `s[..j]` (`kv[b]` is `s[src[b]]`), and every warning
/// of `s[..j]` has the same report as some `kv[rep[a]]`.
spec fn kept_so_far(kv: Seq<WarningView>, s: Seq<WarningView>, j: int, src: Seq<int>, rep: Seq<int>) -> bool {
    &&& src.len() == kv.len()
    &&& rep.len() == j
    &&& forall|b: int| 0 <= b < kv.len() ==> 0 <= #[trigger] src[b] < j && kv[b] == s[src[b]]
    &&& forall|a: int| 0 <= a < j ==> 0 <= #[trigger] rep[a] < kv.len() && same_report(kv[rep[a]], s[a])
}

proof fn lemma_keep_step(s: Seq<WarningView>, j: int, kv: Seq<WarningView>, src: Seq<int>, rep: Seq<int>)
    requires
        0 <= j < s.len(),
        kv == first_reports(s.take(j)),
        kept_so_far(kv, s, j, src, rep),
    ensures
        reported(kv, s[j]) ==> first_reports(s.take(j + 1)) == kv,
        !reported(kv, s[j]) ==> first_reports(s.take(j + 1)) == kv.push(s[j]),
{
    let pre = s.take(j + 1);
    assert(pre.drop_last() == s.take(j));
    assert(pre.last() == s[j]);
    if reported(kv, s[j]) {
        let b = choose|b: int| 0 <= b < kv.len() && same_report(#[trigger] kv[b], s[j]);
        let a = src[b];
        assert(pre[a] == s[a]);
        assert(same_report(pre[a], pre.last()));
    } else {
        assert forall|a: int| 0 <= a < pre.len() - 1 implies !same_report(
            #[trigger] pre[a],
            pre.last(),
        ) by {
            assert(pre[a] == s[a]);
            let b = rep[a];
            if same_report(pre[a], pre.last()) {
                assert(same_report(kv[b], s[j]));
            }
        }
    }
}

/// `candidates` without the warnings that repeat an earlier report.
fn keep_first_reports(candidates: &Vec<ReferenceWarning>) -> (r: Vec<ReferenceWarning>)
    ensures
        warning_views(r@) == first_reports(warning_views(candidates@)),
{
    let ghost cands = warning_views(candidates@);
    let mut kept: Vec<ReferenceWarning> = Vec::new();
    let mut j: usize = 0;
    let ghost mut src: Seq<int> = seq![];
    let ghost mut rep: Seq<int> = seq![];
    assert(cands.take(0) =~= Seq::<WarningView>::empty());
    assert(warning_views(kept@) =~= Seq::<WarningView>::empty());
    while j < candidates.len()
        invariant
            cands == warning_views(candidates@),
            0 <= j <= candidates@.len(),
            warning_views(kept@) == first_reports(cands.take(j as int)),
            kept_so_far(warning_views(kept@), cands, j as int, src, rep),
        decreases candidates.len() - j,
    {
        let w = &candidates[j];
        assert(w@ == cands[j as int]);
        let ghost kv = warning_views(kept@);
        proof {
            lemma_keep_step(cands, j as int, kv, src, rep);
        }
        let seen = has_report(&kept, w);
        if seen {
            proof {
                let b = choose|b: int| 0 <= b < kept@.len() && same_report(#[trigger] kept@[b]@, w@);
                assert(kv[b] == kept@[b]@);
                assert(reported(kv, w@));
                rep = rep.push(b);
                assert(kept_so_far(kv, cands, j + 1, src, rep)) by {
                    assert forall|a: int| 0 <= a < j + 1 implies 0 <= #[trigger] rep[a] < kv.len()
                        && same_report(kv[rep[a]], cands[a]) by {
                        if a < j {
                            assert(rep[a] == rep.drop_last()[a]);
                        }
                    }
                }
            }
        } else {
            proof {
                if reported(kv, w@) {
                    let b = choose|b: int| 0 <= b < kv.len() && same_report(#[trigger] kv[b], w@);
                    assert(kv[b] == kept@[b]@);
                }
            }
            let c = w.clone();
            kept.push(c);
            proof {
                let kv2 = warning_views(kept@);
                assert(kv2 =~= kv.push(w@));
                let old_src = src;
                let old_rep = rep;
                src = src.push(j as int);
                rep = rep.push(kv.len() as int);
                assert(kept_so_far(kv2, cands, j + 1, src, rep)) by {
                    assert forall|b: int| 0 <= b < kv2.len() implies 0 <= #[trigger] src[b] < j + 1
                        && kv2[b] == cands[src[b]] by {
                        if b < kv.len() {
                            assert(src[b] == old_src[b]);
                            assert(kv2[b] == kv[b]);
                        }
                    }
                    assert forall|a: int| 0 <= a < j + 1 implies 0 <= #[trigger] rep[a] < kv2.len()
                        && same_report(kv2[rep[a]], cands[a]) by {
                        if a < j {
                            assert(rep[a] == old_rep[a]);
                            assert(kv2[old_rep[a]] == kv[old_rep[a]]);
                        }
                    }
                }
            }
        }
        j = j + 1;
    }
    assert(cands.take(cands.len() as int) == cands);
    kept
}

/// The warnings for URL-form references, each report once, ordered by file,
/// line and original text.
pub fn collect_url_shortening_warnings(
    project_detection: &crate::checker::ProjectDetection,
    references: &[TodoReference],
) -> (r: Vec<ReferenceWarning>)
    ensures
        url_shortening_warnings(
            project_detection@,
            crate::scan::ref_views(references@),
            warning_views(r@),
        ),
{
    let candidates = gather_suggestions(project_detection, references);
    let kept = keep_first_reports(&candidates);
    let ghost kept_seq = kept@;
    let sorted = crate::order::stable_sort_by_key(kept);
    proof {
        let perm = choose|perm: Seq<int>|
            #[trigger] crate::order::stable_arrangement_by(
                kept_seq,
                sorted@,
                perm,
                crate::order::item_key::<ReferenceWarning>(),
            );
        lemma_views_of_arrangement(kept_seq, sorted@, perm);
    }
    sorted
}

} // verus!

verus! {

/// The outcome of a check, as reported.
#[derive(Debug)]
pub struct CheckOutput {
    pub closed: Vec<crate::checker::ClosedReference>,
    pub not_found: Vec<crate::checker::NotFoundReference>,
    pub warnings: Vec<ReferenceWarning>,
    pub lint_violations: crate::todo::LintViolations,
    pub status: String,
}

/// `"success"` when nothing is wrong, `"failure"` otherwise.
pub open spec fn status_text(failed: bool) -> Seq<char> {
    if failed {
        "failure"@
    } else {
        "success"@
    }
}

/// Whether an output reports closed or unresolved references or lint violations.
pub open spec fn reports_errors(o: CheckOutput) -> bool {
    o.closed@.len() > 0 || o.not_found@.len() > 0 || o.lint_violations@.len() > 0
}

fn status_string(failed: bool) -> (s: String)
    ensures
        s@ == status_text(failed),
{
    if failed {
        crate::text::string_from("failure")
    } else {
        crate::text::string_from("success")
    }
}

/// A copy of a list of lint violations.
pub fn copy_violations(v: &Vec<crate::todo::LintViolation>) -> (r: Vec<crate::todo::LintViolation>)
    ensures
        crate::todo::violation_views(r@) == crate::todo::violation_views(v@),
{
    let mut r: Vec<crate::todo::LintViolation> = Vec::new();
    let mut i: usize = 0;
    while i < v.len()
        invariant
            0 <= i <= v@.len(),
            crate::todo::violation_views(r@) == crate::todo::violation_views(v@.take(i as int)),
        decreases v.len() - i,
    {
        let ghost prev = r@;
        let c = v[i].clone();
        r.push(c);
        assert(crate::todo::violation_views(r@) =~= crate::todo::violation_views(prev).push(c@));
        assert(v@.take(i + 1) =~= v@.take(i as int).push(v@[i as int]));
        assert(crate::todo::violation_views(v@.take(i + 1)) =~= crate::todo::violation_views(
            v@.take(i as int),
        ).push(v@[i as int]@));
        i = i + 1;
    }
    assert(v@.take(v@.len() as int) == v@);
    r
}

impl CheckOutput {
    /// The output for a check result and the lint violations found beside it.
    pub fn from_result(
        result: crate::checker::CheckResult,
        lint_violations: crate::todo::LintViolations,
    ) -> (o: Self)
        ensures
            o.closed == result.closed,
            o.not_found == result.not_found,
            o.warnings@.len() == 0,
            o.lint_violations == lint_violations,
            o.status@ == status_text(
                result.closed@.len() > 0 || result.not_found@.len() > 0 || lint_violations@.len()
                    > 0,
            ),
            o.status@ == status_text(reports_errors(o)),
    {
        let failed = !(result.closed.len() == 0 && result.not_found.len() == 0
            && lint_violations.len() == 0);
        CheckOutput {
            closed: result.closed,
            not_found: result.not_found,
            warnings: Vec::new(),
            lint_violations,
            status: status_string(failed),
        }
    }

    /// An output with nothing to report.
    pub fn empty_success() -> (o: Self)
        ensures
            o.closed@.len() == 0,
            o.not_found@.len() == 0,
            o.warnings@.len() == 0,
            o.lint_violations@.len() == 0,
            o.status@ == status_text(false),
            o.status@ == status_text(reports_errors(o)),
    {
        CheckOutput {
            closed: Vec::new(),
            not_found: Vec::new(),
            warnings: Vec::new(),
            lint_violations: Vec::new(),
            status: status_string(false),
        }
    }

    /// Whether there are closed or unresolved references or lint violations.
    pub fn has_errors(&self) -> (r: bool)
        ensures
            r == reports_errors(*self),
    {
        self.closed.len() > 0 || self.not_found.len() > 0 || self.lint_violations.len() > 0
    }
}

/// The outcome of the syntax check on an extraction: its lint violations and
/// the URL-form references that can be shortened.
pub fn check_invalid_from_extraction(
    extraction: &crate::todo::ExtractionResult,
    project_detection: &crate::checker::ProjectDetection,
) -> (r: Result<CheckOutput, crate::todo::ExtractorError>)
    ensures
        r matches Ok(o) && {
            &&& o.closed@.len() == 0
            &&& o.not_found@.len() == 0
            &&& crate::todo::violation_views(o.lint_violations@) == crate::todo::violation_views(
                extraction.lint_violations@,
            )
            &&& url_shortening_warnings(
                project_detection@,
                crate::scan::ref_views(extraction.references@),
                warning_views(o.warnings@),
            )
            &&& o.status@ == status_text(
                extraction.lint_violations@.len() > 0 || o.warnings@.len() > 0,
            )
        },
{
    let lint_violations = copy_violations(&extraction.lint_violations);
    assert(crate::todo::violation_views(lint_violations@).len() == lint_violations@.len());
    assert(crate::todo::violation_views(extraction.lint_violations@).len()
        == extraction.lint_violations@.len());
    let warnings = collect_url_shortening_warnings(
        project_detection,
        extraction.references.as_slice(),
    );
    if lint_violations.len() == 0 && warnings.len() == 0 {
        let o = CheckOutput::empty_success();
        assert(warning_views(o.warnings@) =~= warning_views(warnings@));
        assert(crate::todo::violation_views(o.lint_violations@) =~= crate::todo::violation_views(
            lint_violations@,
        ));
        Ok(o)
    } else {
        Ok(
            CheckOutput {
                closed: Vec::new(),
                not_found: Vec::new(),
                warnings,
                lint_violations,
                status: status_string(true),
            },
        )
    }
}

/// The outcome of the closed-reference check on an extraction, given what
/// checking its references found.
pub fn check_closed_from_extraction(
    extraction: &crate::todo::ExtractionResult,
    project_detection: &crate::checker::ProjectDetection,
    result: crate::checker::CheckResult,
) -> (o: CheckOutput)
    ensures
        extraction.references@.len() == 0 ==> {
            &&& o.closed@.len() == 0
            &&& o.not_found@.len() == 0
            &&& o.warnings@.len() == 0
            &&& o.lint_violations@.len() == 0
            &&& o.status@ == status_text(false)
        },
        extraction.references@.len() > 0 ==> {
            &&& o.closed == result.closed
            &&& o.not_found == result.not_found
            &&& o.lint_violations@.len() == 0
            &&& url_shortening_warnings(
                project_detection@,
                crate::scan::ref_views(extraction.references@),
                warning_views(o.warnings@),
            )
            &&& o.status@ == status_text(result.closed@.len() > 0 || result.not_found@.len() > 0)
        },
        o.status@ == status_text(reports_errors(o)),
{
    if extraction.references.len() == 0 {
        return CheckOutput::empty_success();
    }
    let warnings = collect_url_shortening_warnings(
        project_detection,
        extraction.references.as_slice(),
    );
    let mut output = CheckOutput::from_result(result, Vec::new());
    output.warnings = warnings;
    output
}

/// The outcome of running every check: the closed-reference outcome with
/// the lint violations of the syntax check added after its own; it fails
/// where anything is reported or the current merge request closes issues
/// that TODO comments refer to, and otherwise keeps its status.
pub fn check_all_output(closed: CheckOutput, invalid: CheckOutput, closes_mr_issues: bool) -> (o:
    CheckOutput)
    ensures
        o.closed == closed.closed,
        o.not_found == closed.not_found,
        o.warnings == closed.warnings,
        o.lint_violations@ == closed.lint_violations@ + invalid.lint_violations@,
        o.status@ == if reports_errors(o) || closes_mr_issues {
            status_text(true)
        } else {
            closed.status@
        },
{
    let mut output = closed;
    let mut extra = invalid.lint_violations;
    output.lint_violations.append(&mut extra);
    if output.has_errors() || closes_mr_issues {
        output.status = status_string(true);
    }
    output
}

/// A file to scan: its path relative to the scanned directory (which the
/// exclude patterns are tested against), the path it is reported under,
/// and its text.
pub struct SourceFile {
    pub relative_path: String,
    pub file_path: String,
    pub text: String,
}

pub struct SourceView {
    pub relative_path: Seq<char>,
    pub file_path: Seq<char>,
    pub text: Seq<char>,
}

impl View for SourceFile {
    type V = SourceView;

    open spec fn view(&self) -> SourceView {
        SourceView {
            relative_path: self.relative_path@,
            file_path: self.file_path@,
            text: self.text@,
        }
    }
}

pub open spec fn source_views(v: Seq<SourceFile>) -> Seq<SourceView> {
    v.map_values(|f: SourceFile| f@)
}

/// An exclude pattern that is not blank and does not compile.
pub open spec fn refused_pattern(p: Seq<char>) -> bool {
    crate::text::trim(p).len() > 0 && crate::todo::regex_search(p, Seq::<char>::empty()) is Err
}

/// Whether the exclude pattern `p` skips the file at `path`; a blank
/// pattern skips nothing.
pub open spec fn excludes(p: Seq<char>, path: Seq<char>) -> bool {
    crate::text::trim(p).len() > 0 && crate::todo::regex_search(p, path) == Ok::<bool, Seq<char>>(
        true,
    )
}

/// Whether any of the exclude patterns skips the file at `path`.
pub open spec fn excluded_by(patterns: Seq<Seq<char>>, path: Seq<char>) -> bool {
    exists|k: int| 0 <= k < patterns.len() && excludes(#[trigger] patterns[k], path)
}

/// What scanning `files` collects: the lines of each file that no pattern
/// excludes, file after file.
pub open spec fn scanned(files: Seq<SourceView>, patterns: Seq<Seq<char>>) -> crate::todo::ExtractionView
    decreases files.len(),
{
    if files.len() == 0 {
        (seq![], seq![])
    } else {
        let st = scanned(files.drop_last(), patterns);
        let f = files.last();
        if excluded_by(patterns, f.relative_path) {
            st
        } else {
            crate::todo::after_lines(st, crate::todo::text_lines(f.text), f.file_path)
        }
    }
}

/// Whether any of `extractors` skips `path`.
fn any_excludes(extractors: &Vec<crate::todo::TodoExtractor>, path: &str) -> (r: bool)
    ensures
        r == exists|m: int|
            0 <= m < extractors@.len() && match (#[trigger] extractors@[m]).exclude_pattern() {
                Some(p) => crate::todo::regex_search(p, path@) == Ok::<bool, Seq<char>>(true),
                None => false,
            },
{
    let mut j: usize = 0;
    while j < extractors.len()
        invariant
            0 <= j <= extractors@.len(),
            forall|m: int|
                0 <= m < j ==> !match (#[trigger] extractors@[m]).exclude_pattern() {
                    Some(p) => crate::todo::regex_search(p, path@) == Ok::<bool, Seq<char>>(true),
                    None => false,
                },
        decreases extractors.len() - j,
    {
        if extractors[j].is_excluded(path) {
            return true;
        }
        j = j + 1;
    }
    false
}

/// Extracts the TODO references and lint violations of `files`, skipping
/// those that an exclude pattern matches; fails on the first exclude
/// pattern that is not a valid regular expression.
pub fn extract_todos(files: &Vec<SourceFile>, exclude_file_regexes: &Vec<String>) -> (r: Result<
    crate::todo::ExtractionResult,
    crate::todo::ExtractorError,
>)
    ensures
        match r {
            Ok(res) => {
                let st = scanned(
                    source_views(files@),
                    crate::status::string_views(exclude_file_regexes@),
                );
                &&& forall|k: int|
                    0 <= k < exclude_file_regexes@.len() ==> !refused_pattern(
                        #[trigger] exclude_file_regexes@[k]@,
                    )
                &&& crate::scan::ref_views(res.references@) == st.0
                &&& crate::todo::no_duplicates(st.0)
                &&& crate::todo::violations_in_report_order(
                    st.1,
                    crate::todo::violation_views(res.lint_violations@),
                )
            },
            Err(crate::todo::ExtractorError::InvalidExcludeRegex { pattern, message }) => exists|
                k: int,
            |
                0 <= k < exclude_file_regexes@.len() && refused_pattern(
                    #[trigger] exclude_file_regexes@[k]@,
                ) && (forall|j: int|
                    0 <= j < k ==> !refused_pattern(#[trigger] exclude_file_regexes@[j]@))
                    && pattern@ == exclude_file_regexes@[k]@ && crate::todo::regex_search(
                    pattern@,
                    Seq::<char>::empty(),
                ) == Err::<bool, Seq<char>>(message@),
        },
{
    let ghost ps = crate::status::string_views(exclude_file_regexes@);
    let mut extractors: Vec<crate::todo::TodoExtractor> = Vec::new();
    let mut k: usize = 0;
    while k < exclude_file_regexes.len()
        invariant
            ps == crate::status::string_views(exclude_file_regexes@),
            0 <= k <= exclude_file_regexes@.len(),
            extractors@.len() == k,
            forall|j: int| 0 <= j < k ==> !refused_pattern(#[trigger] exclude_file_regexes@[j]@),
            forall|j: int|
                0 <= j < k ==> (#[trigger] extractors@[j]).exclude_pattern() == (if crate::text::trim(
                    ps[j],
                ).len() == 0 {
                    None::<Seq<char>>
                } else {
                    Some(ps[j])
                }),
        decreases exclude_file_regexes.len() - k,
    {
        assert(ps[k as int] == exclude_file_regexes@[k as int]@);
        match crate::todo::TodoExtractor::with_exclude_file_regex(exclude_file_regexes[k].as_str()) {
            Ok(e) => {
                extractors.push(e);
            },
            Err(e) => {
                return Err(e);
            },
        }
        k = k + 1;
    }
    let ghost fv = source_views(files@);
    let mut extraction = crate::todo::Extraction::new();
    let mut i: usize = 0;
    while i < files.len()
        invariant
            ps == crate::status::string_views(exclude_file_regexes@),
            fv == source_views(files@),
            extractors@.len() == ps.len(),
            forall|j: int|
                0 <= j < ps.len() ==> (#[trigger] extractors@[j]).exclude_pattern() == (if crate::text::trim(
                    ps[j],
                ).len() == 0 {
                    None::<Seq<char>>
                } else {
                    Some(ps[j])
                }),
            0 <= i <= files@.len(),
            (extraction.references_view(), extraction.violations_view()) == scanned(
                fv.take(i as int),
                ps,
            ),
            crate::todo::no_duplicates(extraction.references_view()),
        decreases files.len() - i,
    {
        let f = &files[i];
        assert(fv.take(i + 1).drop_last() == fv.take(i as int));
        assert(fv.take(i + 1).last() == f@);
        let skip = any_excludes(&extractors, f.relative_path.as_str());
        proof {
            if skip {
                let m = choose|m: int|
                    0 <= m < extractors@.len() && match (#[trigger] extractors@[m]).exclude_pattern() {
                        Some(p) => crate::todo::regex_search(p, f.relative_path@) == Ok::<
                            bool,
                            Seq<char>,
                        >(true),
                        None => false,
                    };
                assert(excludes(ps[m], f.relative_path@));
            } else {
                assert forall|m: int| 0 <= m < ps.len() implies !excludes(
                    #[trigger] ps[m],
                    f.relative_path@,
                ) by {
                    assert(extractors@[m].exclude_pattern() == (if crate::text::trim(ps[m]).len()
                        == 0 {
                        None::<Seq<char>>
                    } else {
                        Some(ps[m])
                    }));
                }
            }
        }
        if !skip {
            extraction.add_text(f.text.as_str(), f.file_path.as_str());
        }
        i = i + 1;
    }
    assert(fv.take(fv.len() as int) == fv);
    Ok(extraction.finish())
}

/// The syntax check over `files`: their lint violations and the URL-form
/// references that can be shortened.
pub fn check_invalid(
    files: &Vec<SourceFile>,
    project_detection: &crate::checker::ProjectDetection,
    exclude_file_regexes: &Vec<String>,
) -> (r: Result<CheckOutput, crate::todo::ExtractorError>)
    ensures
        match r {
            Ok(o) => {
                let st = scanned(
                    source_views(files@),
                    crate::status::string_views(exclude_file_regexes@),
                );
                &&& forall|k: int|
                    0 <= k < exclude_file_regexes@.len() ==> !refused_pattern(
                        #[trigger] exclude_file_regexes@[k]@,
                    )
                &&& o.closed@.len() == 0
                &&& o.not_found@.len() == 0
                &&& crate::todo::violations_in_report_order(
                    st.1,
                    crate::todo::violation_views(o.lint_violations@),
                )
                &&& url_shortening_warnings(project_detection@, st.0, warning_views(o.warnings@))
                &&& o.status@ == status_text(o.lint_violations@.len() > 0 || o.warnings@.len() > 0)
            },
            Err(crate::todo::ExtractorError::InvalidExcludeRegex { pattern, message }) => exists|
                k: int,
            |
                0 <= k < exclude_file_regexes@.len() && refused_pattern(
                    #[trigger] exclude_file_regexes@[k]@,
                ) && (forall|j: int|
                    0 <= j < k ==> !refused_pattern(#[trigger] exclude_file_regexes@[j]@))
                    && pattern@ == exclude_file_regexes@[k]@ && crate::todo::regex_search(
                    pattern@,
                    Seq::<char>::empty(),
                ) == Err::<bool, Seq<char>>(message@),
        },
{
    let extraction = match extract_todos(files, exclude_file_regexes) {
        Ok(x) => x,
        Err(e) => {
            return Err(e);
        },
    };
    let r = check_invalid_from_extraction(&extraction, project_detection);
    proof {
        if r is Ok {
            let o = r->Ok_0;
            assert(crate::todo::violation_views(o.lint_violations@).len()
                == o.lint_violations@.len());
            assert(crate::todo::violation_views(extraction.lint_violations@).len()
                == extraction.lint_violations@.len());
        }
    }
    r
}

/// What `extract_todos` promises of a successful extraction of `files`.
pub open spec fn extraction_of(
    files: Seq<SourceView>,
    patterns: Seq<Seq<char>>,
    e: crate::todo::ExtractionResult,
) -> bool {
    let st = scanned(files, patterns);
    &&& crate::scan::ref_views(e.references@) == st.0
    &&& crate::todo::violations_in_report_order(st.1, crate::todo::violation_views(e.lint_violations@))
}

/// What `check_invalid_from_extraction` promises of its output for `e`.
pub open spec fn invalid_check_of(
    e: crate::todo::ExtractionResult,
    d: crate::checker::ProjectView,
    o: CheckOutput,
) -> bool {
    &&& o.closed@.len() == 0
    &&& o.not_found@.len() == 0
    &&& crate::todo::violation_views(o.lint_violations@) == crate::todo::violation_views(
        e.lint_violations@,
    )
    &&& url_shortening_warnings(d, crate::scan::ref_views(e.references@), warning_views(o.warnings@))
    &&& o.status@ == status_text(e.lint_violations@.len() > 0 || o.warnings@.len() > 0)
}

/// What `check_invalid` promises of a successful check over `files`.
pub open spec fn invalid_check_over(
    files: Seq<SourceView>,
    patterns: Seq<Seq<char>>,
    d: crate::checker::ProjectView,
    o: CheckOutput,
) -> bool {
    let st = scanned(files, patterns);
    &&& o.closed@.len() == 0
    &&& o.not_found@.len() == 0
    &&& crate::todo::violations_in_report_order(st.1, crate::todo::violation_views(o.lint_violations@))
    &&& url_shortening_warnings(d, st.0, warning_views(o.warnings@))
    &&& o.status@ == status_text(o.lint_violations@.len() > 0 || o.warnings@.len() > 0)
}

/// The syntax check over files is the extraction of the files followed by
/// the syntax check of that extraction: whatever outputs the three meet
/// their promises with, the one-step and the two-step output report the same
/// lint violations, the same warnings and the same status.
pub proof fn law_check_invalid_is_extraction_then_check(
    files: Seq<SourceView>,
    patterns: Seq<Seq<char>>,
    d: crate::checker::ProjectView,
    e: crate::todo::ExtractionResult,
    two_step: CheckOutput,
    one_step: CheckOutput,
)
    requires
        extraction_of(files, patterns, e),
        invalid_check_of(e, d, two_step),
        invalid_check_over(files, patterns, d, one_step),
    ensures
        crate::todo::violation_views(one_step.lint_violations@) == crate::todo::violation_views(
            two_step.lint_violations@,
        ),
        warning_views(one_step.warnings@) == warning_views(two_step.warnings@),
        one_step.status@ == two_step.status@,
        one_step.closed@.len() == 0 && two_step.closed@.len() == 0,
        one_step.not_found@.len() == 0 && two_step.not_found@.len() == 0,
{
    let st = scanned(files, patterns);
    crate::todo::law_violation_report_determined(
        st.1,
        crate::todo::violation_views(one_step.lint_violations@),
        crate::todo::violation_views(e.lint_violations@),
    );
    law_url_shortening_warnings_determined(
        d,
        st.0,
        warning_views(one_step.warnings@),
        warning_views(two_step.warnings@),
    );
    assert(crate::todo::violation_views(one_step.lint_violations@).len()
        == one_step.lint_violations@.len());
    assert(crate::todo::violation_views(two_step.lint_violations@).len()
        == two_step.lint_violations@.len());
    assert(crate::todo::violation_views(e.lint_violations@).len() == e.lint_violations@.len());
    assert(warning_views(one_step.warnings@).len() == one_step.warnings@.len());
    assert(warning_views(two_step.warnings@).len() == two_step.warnings@.len());
}

/// Line `i` (from 0) of file `f` is read and raises the violation `v`.
pub open spec fn file_gives_violation(
    files: Seq<SourceView>,
    patterns: Seq<Seq<char>>,
    v: crate::todo::ViolationView,
    f: int,
    i: int,
) -> bool {
    &&& 0 <= f < files.len()
    &&& !excluded_by(patterns, files[f].relative_path)
    &&& crate::todo::line_gives_violation(
        crate::todo::text_lines(files[f].text),
        files[f].file_path,
        v,
        i,
    )
}

/// Line `i` (from 0) of file `f` is read and carries the reference `r`.
pub open spec fn file_gives_reference(
    files: Seq<SourceView>,
    patterns: Seq<Seq<char>>,
    r: ReferenceView,
    f: int,
    i: int,
) -> bool {
    &&& 0 <= f < files.len()
    &&& !excluded_by(patterns, files[f].relative_path)
    &&& crate::todo::line_gives_reference(
        crate::todo::text_lines(files[f].text),
        files[f].file_path,
        r,
        i,
    )
}

proof fn lemma_scanned_contents(files: Seq<SourceView>, patterns: Seq<Seq<char>>)
    ensures
        forall|v: crate::todo::ViolationView| #[trigger]
            scanned(files, patterns).1.contains(v) <==> exists|f: int, i: int|
                #[trigger] file_gives_violation(files, patterns, v, f, i),
        forall|r: ReferenceView| #[trigger]
            scanned(files, patterns).0.contains(r) <==> exists|f: int, i: int|
                #[trigger] file_gives_reference(files, patterns, r, f, i),
    decreases files.len(),
{
    if files.len() > 0 {
        let p = files.drop_last();
        let n = files.len() as int;
        let last = files.last();
        let prev = scanned(p, patterns);
        lemma_scanned_contents(p, patterns);
        let lines = crate::todo::text_lines(last.text);
        crate::todo::lemma_after_lines_contents(prev, lines, last.file_path);
        assert forall|v: crate::todo::ViolationView, f: int, i: int| 0 <= f < n - 1 implies (
        #[trigger] file_gives_violation(files, patterns, v, f, i) <==> file_gives_violation(
            p,
            patterns,
            v,
            f,
            i,
        )) by {
            assert(p[f] == files[f]);
        }
        assert forall|r: ReferenceView, f: int, i: int| 0 <= f < n - 1 implies (
        #[trigger] file_gives_reference(files, patterns, r, f, i) <==> file_gives_reference(
            p,
            patterns,
            r,
            f,
            i,
        )) by {
            assert(p[f] == files[f]);
        }
        assert forall|v: crate::todo::ViolationView| #[trigger]
            scanned(files, patterns).1.contains(v) <==> exists|f: int, i: int|
                #[trigger] file_gives_violation(files, patterns, v, f, i) by {
            if exists|f: int, i: int| #[trigger] file_gives_violation(files, patterns, v, f, i) {
                let (f, i) = choose|f: int, i: int|
                    #[trigger] file_gives_violation(files, patterns, v, f, i);
                if f < n - 1 {
                    assert(file_gives_violation(p, patterns, v, f, i));
                } else {
                    assert(crate::todo::line_gives_violation(lines, last.file_path, v, i));
                }
            }
            if exists|f: int, i: int| #[trigger] file_gives_violation(p, patterns, v, f, i) {
                let (f, i) = choose|f: int, i: int|
                    #[trigger] file_gives_violation(p, patterns, v, f, i);
                assert(file_gives_violation(files, patterns, v, f, i));
            }
            if !excluded_by(patterns, last.relative_path) {
                if exists|i: int| #[trigger] crate::todo::line_gives_violation(
                    lines,
                    last.file_path,
                    v,
                    i,
                ) {
                    let i = choose|i: int| #[trigger] crate::todo::line_gives_violation(
                        lines,
                        last.file_path,
                        v,
                        i,
                    );
                    assert(file_gives_violation(files, patterns, v, n - 1, i));
                }
            }
        }
        assert forall|r: ReferenceView| #[trigger]
            scanned(files, patterns).0.contains(r) <==> exists|f: int, i: int|
                #[trigger] file_gives_reference(files, patterns, r, f, i) by {
            if exists|f: int, i: int| #[trigger] file_gives_reference(files, patterns, r, f, i) {
                let (f, i) = choose|f: int, i: int|
                    #[trigger] file_gives_reference(files, patterns, r, f, i);
                if f < n - 1 {
                    assert(file_gives_reference(p, patterns, r, f, i));
                } else {
                    assert(crate::todo::line_gives_reference(lines, last.file_path, r, i));
                }
            }
            if exists|f: int, i: int| #[trigger] file_gives_reference(p, patterns, r, f, i) {
                let (f, i) = choose|f: int, i: int|
                    #[trigger] file_gives_reference(p, patterns, r, f, i);
                assert(file_gives_reference(files, patterns, r, f, i));
            }
            if !excluded_by(patterns, last.relative_path) {
                if exists|i: int| #[trigger] crate::todo::line_gives_reference(
                    lines,
                    last.file_path,
                    r,
                    i,
                ) {
                    let i = choose|i: int| #[trigger] crate::todo::line_gives_reference(
                        lines,
                        last.file_path,
                        r,
                        i,
                    );
                    assert(file_gives_reference(files, patterns, r, n - 1, i));
                }
            }
        }
    }
}

/// What an extraction collects comes from the lines of the files that no
/// pattern excludes, and each line's findings are collected: a lint
/// violation is exactly what a read line raises, holding the trimmed line,
/// the file and its line number counted from 1; a reference is exactly one
/// that a read line carries, with the same trimmed line, file and number.
pub proof fn law_extraction_positions(files: Seq<SourceView>, patterns: Seq<Seq<char>>)
    ensures
        forall|v: crate::todo::ViolationView| #[trigger]
            scanned(files, patterns).1.contains(v) <==> exists|f: int, i: int|
                #[trigger] file_gives_violation(files, patterns, v, f, i),
        forall|r: ReferenceView| #[trigger]
            scanned(files, patterns).0.contains(r) <==> exists|f: int, i: int|
                #[trigger] file_gives_reference(files, patterns, r, f, i),
        forall|v: crate::todo::ViolationView, f: int, i: int|
            #[trigger] file_gives_violation(files, patterns, v, f, i) ==> v == (
            crate::todo::ViolationView {
                source_line: crate::text::trim(crate::todo::text_lines(files[f].text)[i]),
                file_path: files[f].file_path,
                line_number: (i + 1) as u64,
            }),
        forall|r: ReferenceView, f: int, i: int|
            #[trigger] file_gives_reference(files, patterns, r, f, i) ==> {
                &&& r.source_line == crate::text::trim(crate::todo::text_lines(files[f].text)[i])
                &&& r.file_path == files[f].file_path
                &&& r.line_number == (i + 1) as u64
            },
{
    lemma_scanned_contents(files, patterns);
    assert forall|r: ReferenceView, f: int, i: int|
        #[trigger] file_gives_reference(files, patterns, r, f, i) implies {
        &&& r.source_line == crate::text::trim(crate::todo::text_lines(files[f].text)[i])
        &&& r.file_path == files[f].file_path
        &&& r.line_number == (i + 1) as u64
    } by {
        crate::todo::lemma_line_reference_position(
            crate::todo::text_lines(files[f].text)[i],
            files[f].file_path,
            (i + 1) as u64,
            r,
        );
    }
}

} // verus!
