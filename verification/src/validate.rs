//! Static checks of a story: the start node, the uniqueness of node ids,
//! the targets of choices, and the variables that conditions read.

use crate::condition::{lhs_ident, spec_lhs_ident};
use crate::error::{story_diagnostics_view, Diagnostic, DiagnosticLevel, SpecStoryDiagnostic};
use crate::model::{has_node, SpecStory, SpecStoryNode, Story};
use crate::text::{decimal, decimal_spec, same_text};
use vstd::prelude::*;
use vstd::string::*;

verus! {

/// The checks that are made of each choice.
#[derive(Clone, Copy)]
pub enum ChoiceCheck {
    /// The node that the choice leads to exists.
    Target,
    /// The name in front of the operator of its condition is a declared variable.
    Variable,
}

/// The path of node `i`'s id: `/nodes[i].id`.
pub open spec fn node_id_path(i: nat) -> Seq<char> {
    "/nodes["@ + decimal_spec(i) + "].id"@
}

/// The path of a part of choice `j` of node `i`: `/nodes[i]/choices[j]/leaf`.
pub open spec fn choice_path(i: nat, j: nat, leaf: Seq<char>) -> Seq<char> {
    "/nodes["@ + decimal_spec(i) + "]/choices["@ + decimal_spec(j) + "]/"@ + leaf
}

/// A message that names a thing between single quotes.
pub open spec fn naming(before: Seq<char>, name: Seq<char>, after: Seq<char>) -> Seq<char> {
    before + name + after
}

/// What is reported where the start node is missing.
pub open spec fn start_diagnostics(story: SpecStory) -> Seq<SpecStoryDiagnostic> {
    if has_node(story.nodes, story.start) {
        Seq::empty()
    } else {
        seq![
            Diagnostic::spec_error(
                "start_not_found"@,
                "/start"@,
                naming("Start node '"@, story.start, "' does not exist"@),
            ),
        ]
    }
}

/// Whether the id of node `i` is that of an earlier node.
pub open spec fn seen_before(nodes: Seq<SpecStoryNode>, i: int) -> bool {
    exists|k: int| 0 <= k < i && (#[trigger] nodes[k]).id == nodes[i].id
}

/// What is reported of node `i`'s id: an error where an earlier node has it.
pub open spec fn duplicate_diagnostic(nodes: Seq<SpecStoryNode>, i: int) -> Seq<SpecStoryDiagnostic> {
    if seen_before(nodes, i) {
        seq![
            Diagnostic::spec_error(
                "duplicate_node_id"@,
                node_id_path(i as nat),
                naming("Duplicate node id '"@, nodes[i].id, "'"@),
            ),
        ]
    } else {
        Seq::empty()
    }
}

/// The duplicate ids among the first `n` nodes, in order.
pub open spec fn duplicate_diagnostics(nodes: Seq<SpecStoryNode>, n: int) -> Seq<SpecStoryDiagnostic>
    decreases n,
{
    if n <= 0 {
        Seq::empty()
    } else {
        duplicate_diagnostics(nodes, n - 1) + duplicate_diagnostic(nodes, n - 1)
    }
}

/// What one check reports of choice `j` of node `i`: an error for a target
/// that does not exist, a warning for a condition on an undeclared variable.
pub open spec fn choice_diagnostic(story: SpecStory, i: int, j: int, check: ChoiceCheck) -> Seq<
    SpecStoryDiagnostic,
> {
    let choice = story.nodes[i].choices[j];
    match check {
        ChoiceCheck::Target => {
            if has_node(story.nodes, choice.next) {
                Seq::empty()
            } else {
                seq![
                    Diagnostic::spec_error(
                        "unknown_target"@,
                        choice_path(i as nat, j as nat, "next"@),
                        naming("Choice points to unknown node '"@, choice.next, "'"@),
                    ),
                ]
            }
        },
        ChoiceCheck::Variable => match choice.cond {
            Some(cond) => match spec_lhs_ident(cond) {
                Some(name) => {
                    if story.variables.contains_key(name) {
                        Seq::empty()
                    } else {
                        seq![
                            Diagnostic::spec_warn(
                                "unknown_variable"@,
                                choice_path(i as nat, j as nat, "if"@),
                                naming("Condition references unknown variable '"@, name, "'"@),
                            ),
                        ]
                    }
                },
                None => Seq::empty(),
            },
            None => Seq::empty(),
        },
    }
}

/// What one check reports of the first `m` choices of node `i`, in order.
pub open spec fn node_diagnostics(story: SpecStory, i: int, m: int, check: ChoiceCheck) -> Seq<SpecStoryDiagnostic>
    decreases m,
{
    if m <= 0 {
        Seq::empty()
    } else {
        node_diagnostics(story, i, m - 1, check) + choice_diagnostic(story, i, m - 1, check)
    }
}

/// What one check reports of the choices of the first `n` nodes, in order.
pub open spec fn choice_diagnostics(story: SpecStory, n: int, check: ChoiceCheck) -> Seq<SpecStoryDiagnostic>
    decreases n,
{
    if n <= 0 {
        Seq::empty()
    } else {
        choice_diagnostics(story, n - 1, check) + node_diagnostics(
            story,
            n - 1,
            story.nodes[n - 1].choices.len() as int,
            check,
        )
    }
}

/// Everything that validation reports of a story: the missing start node,
/// then the duplicate ids, then the unknown targets, then the unknown
/// variables.
pub open spec fn spec_validate(story: SpecStory) -> Seq<SpecStoryDiagnostic> {
    let n = story.nodes.len() as int;
    start_diagnostics(story) + duplicate_diagnostics(story.nodes, n) + choice_diagnostics(
        story,
        n,
        ChoiceCheck::Target,
    ) + choice_diagnostics(story, n, ChoiceCheck::Variable)
}

fn join3(a: &str, b: &str, c: &str) -> (r: String)
    ensures
        r@ == a@ + b@ + c@,
{
    let mut r = String::from_str(a);
    r.append(b);
    r.append(c);
    r
}

fn make_choice_path(i: usize, j: usize, leaf: &str) -> (r: String)
    ensures
        r@ == choice_path(i as nat, j as nat, leaf@),
{
    let mut r = String::from_str("/nodes[");
    r.append(decimal(i).as_str());
    r.append("]/choices[");
    r.append(decimal(j).as_str());
    r.append("]/");
    r.append(leaf);
    r
}

fn push_all(out: &mut Vec<Diagnostic>, found: Option<Diagnostic>)
    ensures
        story_diagnostics_view(final(out)@) == story_diagnostics_view(old(out)@) + (match found {
            Some(d) => seq![d@],
            None => Seq::empty(),
        }),
{
    let ghost before = story_diagnostics_view(out@);
    match found {
        Some(d) => {
            out.push(d);
            proof {
                assert(story_diagnostics_view(out@) =~= before + seq![d@]);
            }
        },
        None => {
            proof {
                assert(before =~= before + Seq::empty());
            }
        },
    }
}

fn check_duplicate(story: &Story, i: usize) -> (r: Option<Diagnostic>)
    requires
        i < story.nodes.len(),
    ensures
        (match r {
            Some(d) => seq![d@],
            None => Seq::empty(),
        }) == duplicate_diagnostic(story@.nodes, i as int),
{
    let id = story.nodes[i].id.as_str();
    let mut k: usize = 0;
    while k < i
        invariant
            0 <= k <= i < story.nodes.len(),
            id@ == story@.nodes[i as int].id,
            forall|m: int| 0 <= m < k ==> (#[trigger] story@.nodes[m]).id != id@,
        decreases i - k,
    {
        if same_text(story.nodes[k].id.as_str(), id) {
            assert(story@.nodes[k as int].id == story@.nodes[i as int].id);
            return Some(
                Diagnostic::error(
                    "duplicate_node_id",
                    join3("/nodes[", decimal(i).as_str(), "].id"),
                    join3("Duplicate node id '", id, "'"),
                ),
            );
        }
        k = k + 1;
    }
    None
}

fn check_choice(story: &Story, i: usize, j: usize, check: ChoiceCheck) -> (r: Option<Diagnostic>)
    requires
        i < story.nodes.len(),
        j < story.nodes[i as int].choices.len(),
    ensures
        (match r {
            Some(d) => seq![d@],
            None => Seq::empty(),
        }) == choice_diagnostic(story@, i as int, j as int, check),
{
    let choice = &story.nodes[i].choices[j];
    assert(story@.nodes[i as int].choices[j as int] == choice@);
    match check {
        ChoiceCheck::Target => {
            if story.node(choice.next.as_str()).is_some() {
                None
            } else {
                Some(
                    Diagnostic::error(
                        "unknown_target",
                        make_choice_path(i, j, "next"),
                        join3("Choice points to unknown node '", choice.next.as_str(), "'"),
                    ),
                )
            }
        },
        ChoiceCheck::Variable => match &choice.cond {
            Some(cond) => match lhs_ident(cond.as_str()) {
                Some(name) => {
                    if story.variables.contains_key(name.as_str()) {
                        None
                    } else {
                        Some(
                            Diagnostic::warn(
                                "unknown_variable",
                                make_choice_path(i, j, "if"),
                                join3("Condition references unknown variable '", name.as_str(), "'"),
                            ),
                        )
                    }
                },
                None => None,
            },
            None => None,
        },
    }
}

fn check_choices(story: &Story, check: ChoiceCheck, out: &mut Vec<Diagnostic>)
    ensures
        story_diagnostics_view(final(out)@) == story_diagnostics_view(old(out)@) + choice_diagnostics(
            story@,
            story@.nodes.len() as int,
            check,
        ),
{
    let ghost start = story_diagnostics_view(out@);
    let mut i: usize = 0;
    proof {
        assert(start =~= start + choice_diagnostics(story@, 0, check));
    }
    while i < story.nodes.len()
        invariant
            0 <= i <= story.nodes.len(),
            story_diagnostics_view(out@) == start + choice_diagnostics(story@, i as int, check),
        decreases story.nodes.len() - i,
    {
        let ghost at_node = story_diagnostics_view(out@);
        let count = story.nodes[i].choices.len();
        assert(count == story@.nodes[i as int].choices.len());
        let mut j: usize = 0;
        proof {
            assert(at_node =~= at_node + node_diagnostics(story@, i as int, 0, check));
        }
        while j < count
            invariant
                i < story.nodes.len(),
                count == story.nodes[i as int].choices.len(),
                0 <= j <= count,
                story_diagnostics_view(out@) == at_node + node_diagnostics(story@, i as int, j as int, check),
            decreases count - j,
        {
            let found = check_choice(story, i, j, check);
            push_all(out, found);
            proof {
                assert(at_node + node_diagnostics(story@, i as int, j as int, check) + choice_diagnostic(
                    story@,
                    i as int,
                    j as int,
                    check,
                ) =~= at_node + node_diagnostics(story@, i + 1 - 1, j + 1, check));
            }
            j = j + 1;
        }
        proof {
            assert(start + choice_diagnostics(story@, i as int, check) + node_diagnostics(
                story@,
                i as int,
                count as int,
                check,
            ) =~= start + choice_diagnostics(story@, i + 1, check));
        }
        i = i + 1;
    }
}

/// Checks a story and reports what it finds, in a fixed order. The story
/// is left as it is.
pub fn validate_story(story: &Story) -> (out: Vec<Diagnostic>)
    ensures
        story_diagnostics_view(out@) == spec_validate(story@),
{
    let mut out: Vec<Diagnostic> = Vec::new();
    let ghost n = story@.nodes.len() as int;
    if story.node(story.start.as_str()).is_none() {
        out.push(
            Diagnostic::error(
                "start_not_found",
                String::from_str("/start"),
                join3("Start node '", story.start.as_str(), "' does not exist"),
            ),
        );
    }
    proof {
        assert(story_diagnostics_view(out@) =~= start_diagnostics(story@));
    }
    let ghost head = story_diagnostics_view(out@);
    let mut i: usize = 0;
    proof {
        assert(head =~= head + duplicate_diagnostics(story@.nodes, 0));
    }
    while i < story.nodes.len()
        invariant
            0 <= i <= story.nodes.len(),
            story_diagnostics_view(out@) == head + duplicate_diagnostics(story@.nodes, i as int),
        decreases story.nodes.len() - i,
    {
        let found = check_duplicate(story, i);
        push_all(&mut out, found);
        proof {
            assert(head + duplicate_diagnostics(story@.nodes, i as int) + duplicate_diagnostic(story@.nodes, i as int)
                =~= head + duplicate_diagnostics(story@.nodes, i + 1));
        }
        i = i + 1;
    }
    check_choices(story, ChoiceCheck::Target, &mut out);
    check_choices(story, ChoiceCheck::Variable, &mut out);
    out
}

/// Whether a diagnostic of code `code` is among `diags`.
pub open spec fn reports(diags: Seq<SpecStoryDiagnostic>, code: Seq<char>) -> bool {
    exists|k: int| 0 <= k < diags.len() && (#[trigger] diags[k]).code == code
}

/// Whether a diagnostic of level error is among `diags`.
pub open spec fn has_error(diags: Seq<SpecStoryDiagnostic>) -> bool {
    exists|k: int| 0 <= k < diags.len() && (#[trigger] diags[k]).level == DiagnosticLevel::Error
}

/// The code and the level of what a check of choices reports.
pub open spec fn check_code(check: ChoiceCheck) -> (Seq<char>, DiagnosticLevel) {
    match check {
        ChoiceCheck::Target => ("unknown_target"@, DiagnosticLevel::Error),
        ChoiceCheck::Variable => ("unknown_variable"@, DiagnosticLevel::Warning),
    }
}

proof fn lemma_duplicate_diagnostics(nodes: Seq<SpecStoryNode>, n: int)
    requires
        0 <= n <= nodes.len(),
    ensures
        forall|k: int|
            0 <= k < duplicate_diagnostics(nodes, n).len() ==> (#[trigger] duplicate_diagnostics(nodes, n)[k]).code
                == "duplicate_node_id"@ && duplicate_diagnostics(nodes, n)[k].level == DiagnosticLevel::Error,
        duplicate_diagnostics(nodes, n).len() == 0 <==> forall|i: int| 0 <= i < n ==> !seen_before(nodes, i),
    decreases n,
{
    if n > 0 {
        lemma_duplicate_diagnostics(nodes, n - 1);
    }
}

proof fn lemma_node_diagnostics(story: SpecStory, i: int, m: int, check: ChoiceCheck)
    requires
        0 <= i < story.nodes.len(),
        0 <= m <= story.nodes[i].choices.len(),
    ensures
        forall|k: int|
            0 <= k < node_diagnostics(story, i, m, check).len() ==> (#[trigger] node_diagnostics(
                story,
                i,
                m,
                check,
            )[k]).code == check_code(check).0 && node_diagnostics(story, i, m, check)[k].level == check_code(
                check,
            ).1,
        forall|j: int|
            0 <= j < m && choice_diagnostic(story, i, j, check).len() > 0 ==> node_diagnostics(
                story,
                i,
                m,
                check,
            ).contains(#[trigger] choice_diagnostic(story, i, j, check)[0]),
        node_diagnostics(story, i, m, check).len() == 0 <==> forall|j: int|
            0 <= j < m ==> (#[trigger] choice_diagnostic(story, i, j, check)).len() == 0,
    decreases m,
{
    if m > 0 {
        lemma_node_diagnostics(story, i, m - 1, check);
        let before = node_diagnostics(story, i, m - 1, check);
        let last = choice_diagnostic(story, i, m - 1, check);
        let all = node_diagnostics(story, i, m, check);
        assert forall|j: int| 0 <= j < m && choice_diagnostic(story, i, j, check).len() > 0 implies all.contains(
            #[trigger] choice_diagnostic(story, i, j, check)[0],
        ) by {
            if j < m - 1 {
                let d = choice_diagnostic(story, i, j, check)[0];
                let k = choose|k: int| 0 <= k < before.len() && before[k] == d;
                assert(all[k] == d);
            } else {
                assert(all[before.len() as int] == last[0]);
            }
        }
    }
}

proof fn lemma_choice_diagnostics(story: SpecStory, n: int, check: ChoiceCheck)
    requires
        0 <= n <= story.nodes.len(),
    ensures
        forall|k: int|
            0 <= k < choice_diagnostics(story, n, check).len() ==> (#[trigger] choice_diagnostics(
                story,
                n,
                check,
            )[k]).code == check_code(check).0 && choice_diagnostics(story, n, check)[k].level == check_code(check).1,
        forall|i: int, j: int|
            0 <= i < n && 0 <= j < story.nodes[i].choices.len() && choice_diagnostic(story, i, j, check).len() > 0
                ==> choice_diagnostics(story, n, check).contains(#[trigger] choice_diagnostic(story, i, j, check)[0]),
        choice_diagnostics(story, n, check).len() == 0 <==> forall|i: int, j: int|
            0 <= i < n && 0 <= j < story.nodes[i].choices.len() ==> (#[trigger] choice_diagnostic(
                story,
                i,
                j,
                check,
            )).len() == 0,
    decreases n,
{
    if n > 0 {
        lemma_choice_diagnostics(story, n - 1, check);
        let m = story.nodes[n - 1].choices.len() as int;
        lemma_node_diagnostics(story, n - 1, m, check);
        let before = choice_diagnostics(story, n - 1, check);
        let last = node_diagnostics(story, n - 1, m, check);
        let all = choice_diagnostics(story, n, check);
        assert forall|i: int, j: int|
            0 <= i < n && 0 <= j < story.nodes[i].choices.len() && choice_diagnostic(story, i, j, check).len()
                > 0 implies all.contains(#[trigger] choice_diagnostic(story, i, j, check)[0]) by {
            let d = choice_diagnostic(story, i, j, check)[0];
            if i < n - 1 {
                let k = choose|k: int| 0 <= k < before.len() && before[k] == d;
                assert(all[k] == d);
            } else {
                let k = choose|k: int| 0 <= k < last.len() && last[k] == d;
                assert(all[before.len() + k] == d);
            }
        }
    }
}

/// Validation reports `start_not_found` exactly where no node has the id
/// of the start node.
pub proof fn lemma_start_not_found(story: SpecStory)
    ensures
        reports(spec_validate(story), "start_not_found"@) <==> !story.start_exists(),
{
    let n = story.nodes.len() as int;
    let all = spec_validate(story);
    let a = start_diagnostics(story);
    let b = duplicate_diagnostics(story.nodes, n);
    let c = choice_diagnostics(story, n, ChoiceCheck::Target);
    let d = choice_diagnostics(story, n, ChoiceCheck::Variable);
    lemma_duplicate_diagnostics(story.nodes, n);
    lemma_choice_diagnostics(story, n, ChoiceCheck::Target);
    lemma_choice_diagnostics(story, n, ChoiceCheck::Variable);
    reveal_strlit("start_not_found");
    reveal_strlit("duplicate_node_id");
    reveal_strlit("unknown_target");
    reveal_strlit("unknown_variable");
    if !story.start_exists() {
        assert(all[0].code == "start_not_found"@);
    } else {
        assert forall|k: int| 0 <= k < all.len() implies (#[trigger] all[k]).code != "start_not_found"@ by {
            assert(a.len() == 0);
            assert("start_not_found"@.len() == 15);
            if k < b.len() {
                assert(all[k] == b[k]);
                assert(b[k].code == "duplicate_node_id"@);
                assert("duplicate_node_id"@.len() == 17);
            } else if k < b.len() + c.len() {
                assert(all[k] == c[k - b.len()]);
                assert(c[k - b.len()].code == "unknown_target"@);
                assert("unknown_target"@.len() == 14);
            } else {
                assert(all[k] == d[k - b.len() - c.len()]);
                assert(d[k - b.len() - c.len()].code == "unknown_variable"@);
                assert("unknown_variable"@.len() == 16);
            }
        }
    }
}

/// Validation reports every choice that leads to no node, with the code
/// `unknown_target` and the path of the choice.
pub proof fn lemma_unknown_target_reported(story: SpecStory, i: int, j: int)
    requires
        0 <= i < story.nodes.len(),
        0 <= j < story.nodes[i].choices.len(),
        !has_node(story.nodes, story.nodes[i].choices[j].next),
    ensures
        spec_validate(story).contains(
            Diagnostic::spec_error(
                "unknown_target"@,
                choice_path(i as nat, j as nat, "next"@),
                naming("Choice points to unknown node '"@, story.nodes[i].choices[j].next, "'"@),
            ),
        ),
{
    let n = story.nodes.len() as int;
    let all = spec_validate(story);
    let a = start_diagnostics(story);
    let b = duplicate_diagnostics(story.nodes, n);
    let c = choice_diagnostics(story, n, ChoiceCheck::Target);
    lemma_choice_diagnostics(story, n, ChoiceCheck::Target);
    let d = choice_diagnostic(story, i, j, ChoiceCheck::Target)[0];
    assert(c.contains(d));
    let k = choose|k: int| 0 <= k < c.len() && c[k] == d;
    assert(all[a.len() + b.len() + k] == d);
}

/// A story is free of errors exactly where validation reports no
/// diagnostic of level error; warnings do not count.
pub proof fn lemma_valid_iff_no_error(story: SpecStory)
    ensures
        story.valid() <==> !has_error(spec_validate(story)),
        has_error(spec_validate(story)) ==> spec_validate(story).len() > 0,
{
    let n = story.nodes.len() as int;
    let all = spec_validate(story);
    let a = start_diagnostics(story);
    let b = duplicate_diagnostics(story.nodes, n);
    let c = choice_diagnostics(story, n, ChoiceCheck::Target);
    let d = choice_diagnostics(story, n, ChoiceCheck::Variable);
    lemma_duplicate_diagnostics(story.nodes, n);
    lemma_choice_diagnostics(story, n, ChoiceCheck::Target);
    lemma_choice_diagnostics(story, n, ChoiceCheck::Variable);
    if story.valid() {
        assert(a.len() == 0);
        assert forall|i: int| 0 <= i < n implies !seen_before(story.nodes, i) by {
            if seen_before(story.nodes, i) {
                let k = choose|k: int| 0 <= k < i && (#[trigger] story.nodes[k]).id == story.nodes[i].id;
                assert(story.nodes[k].id != story.nodes[i].id);
            }
        }
        assert(b.len() == 0);
        assert forall|i: int, j: int| 0 <= i < n && 0 <= j < story.nodes[i].choices.len() implies (
        #[trigger] choice_diagnostic(story, i, j, ChoiceCheck::Target)).len() == 0 by {
            assert(has_node(story.nodes, story.nodes[i].choices[j].next));
        }
        assert(c.len() == 0);
        assert(all =~= d);
        assert(!has_error(all));
    } else {
        if !story.start_exists() {
            assert(all[0].level == DiagnosticLevel::Error);
        } else if !story.unique_ids() {
            let (i, j) = choose|i: int, j: int|
                0 <= i < j < story.nodes.len() && (#[trigger] story.nodes[i]).id == (#[trigger] story.nodes[j]).id;
            assert(seen_before(story.nodes, j));
            assert(b.len() > 0);
            assert(all[a.len() as int] == b[0]);
            assert(all[a.len() as int].level == DiagnosticLevel::Error);
        } else {
            let (i, j) = choose|i: int, j: int|
                0 <= i < story.nodes.len() && 0 <= j < story.nodes[i].choices.len() && !has_node(
                    story.nodes,
                    (#[trigger] story.nodes[i].choices[j]).next,
                );
            assert(choice_diagnostic(story, i, j, ChoiceCheck::Target).len() > 0);
            assert(c.len() > 0);
            assert(all[(a.len() + b.len()) as int] == c[0]);
            assert(all[(a.len() + b.len()) as int].level == DiagnosticLevel::Error);
        }
        assert(has_error(all));
    }
}

/// Checks a story and reports its errors and warnings.
pub fn validate(story: &Story) -> (out: Vec<Diagnostic>)
    ensures
        story_diagnostics_view(out@) == spec_validate(story@),
{
    validate_story(story)
}

/// Whether a diagnostic of level error is in the list.
pub fn has_errors(diags: &Vec<Diagnostic>) -> (r: bool)
    ensures
        r == has_error(story_diagnostics_view(diags@)),
{
    let mut k: usize = 0;
    while k < diags.len()
        invariant
            0 <= k <= diags.len(),
            forall|j: int| 0 <= j < k ==> (#[trigger] story_diagnostics_view(diags@)[j]).level != DiagnosticLevel::Error,
        decreases diags.len() - k,
    {
        if diags[k].level == DiagnosticLevel::Error {
            assert(story_diagnostics_view(diags@)[k as int].level == DiagnosticLevel::Error);
            return true;
        }
        k = k + 1;
    }
    false
}

} // verus!
