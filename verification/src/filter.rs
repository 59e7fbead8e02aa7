//! The step-filtering pipeline.
//!
//! Stages apply in a fixed order — explicit step-id selection, tag
//! expression, OS compatibility, resume start point — each splitting the
//! pool into a matching and a removed part.  Only explicit id selection
//! reorders: there the requested order wins.

use vstd::prelude::*;
use vstd::pervasive::VecAdditionalExecFns;
use crate::cli::RunArgs;
use crate::config::{Step, StepV};
use crate::error::{Error, MissingVar};
use crate::expr::{
    Expr, ExprV, eval_tags_expr, eval_os_expr, contains_string, no_dup_seqs, parse, spec_eval_os,
    spec_eval_tags, spec_parse, spec_vars,
};
use crate::osinfo::{OsInfo, OsInfoV};
use crate::seqs::{lemma_push_contains, lemma_take_step};

verus! {

/// One stage's outcome: the steps kept and the steps removed, both in the
/// pool's order (except that explicit id selection orders `matching` by
/// request).
pub struct FilterResult {
    pub matching: Vec<Step>,
    pub not_matching: Vec<Step>,
}

/// Whether some step of the pool carries id `id`.
pub open spec fn has_id(steps: Seq<StepV>, id: Seq<char>) -> bool {
    exists|k: int| 0 <= k < steps.len() && steps[k].id == id
}

/// The index of the first step carrying `id` (meaningful when `has_id`).
pub open spec fn first_match_index(steps: Seq<StepV>, id: Seq<char>) -> int
    decreases steps.len(),
{
    if steps.len() == 0 {
        0
    } else if steps[0].id == id {
        0
    } else {
        1 + first_match_index(steps.drop_first(), id)
    }
}

/// The first step of the pool carrying id `id`.
pub open spec fn step_with_id(steps: Seq<StepV>, id: Seq<char>) -> StepV {
    steps[first_match_index(steps, id)]
}

/// When the id exists, `first_match_index` is its first position.
pub proof fn lemma_first_match_index(steps: Seq<StepV>, id: Seq<char>)
    requires
        has_id(steps, id),
    ensures
        0 <= first_match_index(steps, id) < steps.len(),
        steps[first_match_index(steps, id)].id == id,
        forall|j: int| 0 <= j < first_match_index(steps, id) ==> steps[j].id != id,
    decreases steps.len(),
{
    if steps.len() == 0 {
        assert(false);
    } else if steps[0].id == id {
    } else {
        assert(has_id(steps.drop_first(), id)) by {
            let k = choose|k: int| 0 <= k < steps.len() && steps[k].id == id;
            assert(steps.drop_first()[k - 1] == steps[k]);
        }
        lemma_first_match_index(steps.drop_first(), id);
        assert forall|j: int| 0 <= j < first_match_index(steps, id) implies steps[j].id != id by {
            if j > 0 {
                assert(steps.drop_first()[j - 1] == steps[j]);
            }
        }
    }
}

/// Whether a step passes the OS stage: no expression, or one that holds
/// of the host.
pub open spec fn step_os_matches(s: StepV, info: OsInfoV) -> bool {
    match s.os {
        None => true,
        Some(e) => spec_eval_os(e, info),
    }
}

/// The pool's steps that pass the OS stage, in order.
pub open spec fn os_matching(steps: Seq<StepV>, info: OsInfoV) -> Seq<StepV>
    decreases steps.len(),
{
    if steps.len() == 0 {
        Seq::empty()
    } else {
        let rest = os_matching(steps.drop_last(), info);
        if step_os_matches(steps.last(), info) {
            rest.push(steps.last())
        } else {
            rest
        }
    }
}

/// The pool's steps the OS stage removes, in order.
pub open spec fn os_rejected(steps: Seq<StepV>, info: OsInfoV) -> Seq<StepV>
    decreases steps.len(),
{
    if steps.len() == 0 {
        Seq::empty()
    } else {
        let rest = os_rejected(steps.drop_last(), info);
        if !step_os_matches(steps.last(), info) {
            rest.push(steps.last())
        } else {
            rest
        }
    }
}

/// The pool's steps whose tags satisfy `e`, in order.
pub open spec fn tags_matching(steps: Seq<StepV>, e: ExprV) -> Seq<StepV>
    decreases steps.len(),
{
    if steps.len() == 0 {
        Seq::empty()
    } else {
        let rest = tags_matching(steps.drop_last(), e);
        if spec_eval_tags(e, steps.last().tags) {
            rest.push(steps.last())
        } else {
            rest
        }
    }
}

/// The pool's steps whose tags do not satisfy `e`, in order.
pub open spec fn tags_rejected(steps: Seq<StepV>, e: ExprV) -> Seq<StepV>
    decreases steps.len(),
{
    if steps.len() == 0 {
        Seq::empty()
    } else {
        let rest = tags_rejected(steps.drop_last(), e);
        if !spec_eval_tags(e, steps.last().tags) {
            rest.push(steps.last())
        } else {
            rest
        }
    }
}

/// The requested ids that name no step of the pool, in request order.
pub open spec fn unknown_ids(steps: Seq<StepV>, req: Seq<Seq<char>>) -> Seq<Seq<char>>
    decreases req.len(),
{
    if req.len() == 0 {
        Seq::empty()
    } else {
        let rest = unknown_ids(steps, req.drop_last());
        if !has_id(steps, req.last()) {
            rest.push(req.last())
        } else {
            rest
        }
    }
}

/// Unfolds `os_matching` over one appended step.
pub proof fn lemma_os_matching_push(steps: Seq<StepV>, e: StepV, info: OsInfoV)
    ensures
        os_matching(steps.push(e), info) == if step_os_matches(e, info) {
            os_matching(steps, info).push(e)
        } else {
            os_matching(steps, info)
        },
        os_rejected(steps.push(e), info) == if !step_os_matches(e, info) {
            os_rejected(steps, info).push(e)
        } else {
            os_rejected(steps, info)
        },
{
    assert(steps.push(e).drop_last() =~= steps);
    assert(steps.push(e).last() == e);
}

/// Unfolds `tags_matching` over one appended step.
pub proof fn lemma_tags_matching_push(steps: Seq<StepV>, s: StepV, e: ExprV)
    ensures
        tags_matching(steps.push(s), e) == if spec_eval_tags(e, s.tags) {
            tags_matching(steps, e).push(s)
        } else {
            tags_matching(steps, e)
        },
        tags_rejected(steps.push(s), e) == if !spec_eval_tags(e, s.tags) {
            tags_rejected(steps, e).push(s)
        } else {
            tags_rejected(steps, e)
        },
{
    assert(steps.push(s).drop_last() =~= steps);
    assert(steps.push(s).last() == s);
}

/// Unfolds `unknown_ids` over one appended request.
pub proof fn lemma_unknown_ids_push(steps: Seq<StepV>, req: Seq<Seq<char>>, id: Seq<char>)
    ensures
        unknown_ids(steps, req.push(id)) == if !has_id(steps, id) {
            unknown_ids(steps, req).push(id)
        } else {
            unknown_ids(steps, req)
        },
{
    assert(req.push(id).drop_last() =~= req);
    assert(req.push(id).last() == id);
}

/// Filtering is idempotent: the OS stage leaves an already-matching pool
/// unchanged, so applying it twice is applying it once.
pub proof fn lemma_os_filter_idempotent(steps: Seq<StepV>, info: OsInfoV)
    ensures
        os_matching(os_matching(steps, info), info) == os_matching(steps, info),
    decreases steps.len(),
{
    if steps.len() == 0 {
    } else {
        lemma_os_filter_idempotent(steps.drop_last(), info);
        if step_os_matches(steps.last(), info) {
            lemma_os_matching_push(
                os_matching(steps.drop_last(), info),
                steps.last(),
                info,
            );
        }
    }
}

/// Filtering is idempotent: the tag stage leaves an already-matching pool
/// unchanged, so applying it twice is applying it once.
pub proof fn lemma_tags_filter_idempotent(steps: Seq<StepV>, e: ExprV)
    ensures
        tags_matching(tags_matching(steps, e), e) == tags_matching(steps, e),
    decreases steps.len(),
{
    if steps.len() == 0 {
    } else {
        lemma_tags_filter_idempotent(steps.drop_last(), e);
        if spec_eval_tags(e, steps.last().tags) {
            lemma_tags_matching_push(
                tags_matching(steps.drop_last(), e),
                steps.last(),
                e,
            );
        }
    }
}

/// Finds the first step whose id is `id`.
fn find_step_index(steps: &Vec<Step>, id: &String) -> (r: Option<usize>)
    ensures
        match r {
            Some(k) => k < steps@.len() && steps.deep_view()[k as int].id == id@ && (forall|j: int|
                0 <= j < k ==> steps.deep_view()[j].id != id@),
            None => !has_id(steps.deep_view(), id@),
        },
{
    let ghost dv = steps.deep_view();
    let mut i: usize = 0;
    while i < steps.len()
        invariant
            i <= steps@.len(),
            dv == steps.deep_view(),
            forall|j: int| 0 <= j < i ==> dv[j].id != id@,
        decreases steps@.len() - i,
    {
        assert(dv[i as int] == steps@[i as int]@);
        if steps[i].id == *id {
            return Some(i);
        }
        i = i + 1;
    }
    None
}

/// Fails with every id of `steps_id_to_check` that names no step of the
/// pool, in request order; succeeds exactly when all requested ids exist.
pub fn check_steps_exist(steps: &Vec<Step>, steps_id_to_check: &Vec<String>) -> (r: Result<
    (),
    Error,
>)
    ensures
        match r {
            Ok(()) => unknown_ids(steps.deep_view(), steps_id_to_check.deep_view()).len() == 0
                && forall|k: int|
                0 <= k < steps_id_to_check.deep_view().len() ==> has_id(
                    steps.deep_view(),
                    #[trigger] steps_id_to_check.deep_view()[k],
                ),
            Err(e) => (e matches Error::UnknownSteps { ids } && ids.deep_view() == unknown_ids(
                steps.deep_view(),
                steps_id_to_check.deep_view(),
            ) && ids.deep_view().len() > 0),
        },
{
    let ghost dv = steps.deep_view();
    let ghost reqv = steps_id_to_check.deep_view();
    let mut unknown: Vec<String> = Vec::new();
    let mut i: usize = 0;
    while i < steps_id_to_check.len()
        invariant
            i <= reqv.len(),
            dv == steps.deep_view(),
            reqv == steps_id_to_check.deep_view(),
            unknown.deep_view() =~= unknown_ids(dv, reqv.take(i as int)),
            forall|j: int| 0 <= j < i ==> unknown.deep_view().len() > 0 || has_id(dv, #[trigger] reqv[j]),
        decreases reqv.len() - i,
    {
        let ghost pre = unknown.deep_view();
        assert(reqv[i as int] == steps_id_to_check@[i as int]@);
        match find_step_index(steps, &steps_id_to_check[i]) {
            Some(_) => {
                assert(has_id(dv, reqv[i as int]));
            },
            None => {
                unknown.push(steps_id_to_check[i].clone());
                assert(unknown.deep_view() =~= pre.push(reqv[i as int]));
            },
        }
        proof {
            lemma_take_step(reqv, i as int);
            lemma_unknown_ids_push(dv, reqv.take(i as int), reqv[i as int]);
        }
        i = i + 1;
    }
    proof {
        assert(reqv.take(reqv.len() as int) =~= reqv);
    }
    if unknown.len() == 0 {
        Ok(())
    } else {
        Err(Error::UnknownSteps { ids: unknown })
    }
}

/// Selects the requested steps, in the requested order: element `k` of the
/// result is the pool's first step carrying the `k`-th requested id.  All
/// requested ids must exist; unselected steps are dropped, not returned.
pub fn select_steps_by_id(steps: &Vec<Step>, requested: &Vec<String>) -> (r: Result<
    Vec<Step>,
    Error,
>)
    ensures
        match r {
            Ok(sel) => {
                &&& unknown_ids(steps.deep_view(), requested.deep_view()).len() == 0
                &&& sel.deep_view().len() == requested.deep_view().len()
                &&& forall|k: int|
                    0 <= k < requested.deep_view().len() ==> has_id(
                        steps.deep_view(),
                        #[trigger] requested.deep_view()[k],
                    ) && sel.deep_view()[k] == step_with_id(
                        steps.deep_view(),
                        requested.deep_view()[k],
                    )
            },
            Err(e) => (e matches Error::UnknownSteps { ids } && ids.deep_view() == unknown_ids(
                steps.deep_view(),
                requested.deep_view(),
            ) && ids.deep_view().len() > 0),
        },
{
    let ghost dv = steps.deep_view();
    let ghost reqv = requested.deep_view();
    match check_steps_exist(steps, requested) {
        Err(e) => Err(e),
        Ok(()) => {
            let mut sel: Vec<Step> = Vec::new();
            let mut i: usize = 0;
            while i < requested.len()
                invariant
                    i <= reqv.len(),
                    dv == steps.deep_view(),
                    reqv == requested.deep_view(),
                    sel.deep_view().len() == i,
                    forall|k: int| 0 <= k < reqv.len() ==> has_id(dv, #[trigger] reqv[k]),
                    forall|k: int|
                        0 <= k < i ==> sel.deep_view()[k] == step_with_id(dv, #[trigger] reqv[k]),
                decreases reqv.len() - i,
            {
                let ghost pre = sel.deep_view();
                assert(reqv[i as int] == requested@[i as int]@);
                match find_step_index(steps, &requested[i]) {
                    Some(k) => {
                        let s = steps[k].clone();
                        sel.push(s);
                        proof {
                            assert(sel.deep_view() =~= pre.push(s@));
                            assert(s@ == dv[k as int]);
                            lemma_first_match_index(dv, reqv[i as int]);
                            let w = first_match_index(dv, reqv[i as int]);
                            assert(w == k as int) by {
                                if w < k as int {
                                    assert(dv[w].id != reqv[i as int]);
                                }
                                if (k as int) < w {
                                    assert(dv[k as int].id != reqv[i as int]);
                                }
                            }
                        }
                    },
                    None => {
                        proof {
                            assert(has_id(dv, reqv[i as int]));
                            assert(false);
                        }
                        // unreachable: all requested ids exist
                        return Err(Error::UnknownSteps { ids: Vec::new() });
                    },
                }
                i = i + 1;
            }
            Ok(sel)
        },
    }
}

/// All tags the pool's steps carry, each once.
pub fn all_pool_tags(steps: &Vec<Step>) -> (r: Vec<String>)
    ensures
        forall|t: Seq<char>|
            r.deep_view().contains(t) == exists|k: int|
                0 <= k < steps.deep_view().len() && #[trigger] steps.deep_view()[k].tags.contains(
                    t,
                ),
        no_dup_seqs(r.deep_view()),
{
    let ghost dv = steps.deep_view();
    let mut out: Vec<String> = Vec::new();
    let mut i: usize = 0;
    while i < steps.len()
        invariant
            i <= dv.len(),
            dv == steps.deep_view(),
            forall|t: Seq<char>|
                out.deep_view().contains(t) == exists|k: int|
                    0 <= k < i && #[trigger] dv[k].tags.contains(t),
            no_dup_seqs(out.deep_view()),
        decreases dv.len() - i,
    {
        let step = &steps[i];
        assert(step@ == dv[i as int]);
        let ghost tags_i = dv[i as int].tags;
        let mut t: usize = 0;
        while t < step.tags.len()
            invariant
                t <= tags_i.len(),
                tags_i == step.tags.deep_view(),
                step@ == dv[i as int],
                dv == steps.deep_view(),
                i < dv.len(),
                forall|x: Seq<char>|
                    out.deep_view().contains(x) == ((exists|k: int|
                        0 <= k < i && #[trigger] dv[k].tags.contains(x)) || tags_i.take(
                        t as int,
                    ).contains(x)),
                no_dup_seqs(out.deep_view()),
            decreases tags_i.len() - t,
        {
            assert(tags_i[t as int] == step.tags@[t as int]@);
            let tag = &step.tags[t];
            assert(tags_i[t as int] == tag@);
            let ghost pre_out = out.deep_view();
            if !contains_string(&out, tag) {
                out.push(tag.clone());
                proof {
                    assert(out.deep_view() =~= pre_out.push(tag@));
                    assert(forall|k: int| 0 <= k < pre_out.len() ==> pre_out[k] != tag@);
                    assert(no_dup_seqs(out.deep_view()));
                }
            }
            proof {
                lemma_take_step(tags_i, t as int);
                assert forall|x: Seq<char>|
                    out.deep_view().contains(x) == ((exists|k: int|
                        0 <= k < i && #[trigger] dv[k].tags.contains(x)) || tags_i.take(
                        t as int + 1,
                    ).contains(x)) by {
                    lemma_push_contains(tags_i.take(t as int), tags_i[t as int], x);
                    lemma_push_contains(pre_out, tags_i[t as int], x);
                    assert(pre_out.contains(x) == ((exists|k: int|
                        0 <= k < i && #[trigger] dv[k].tags.contains(x)) || tags_i.take(
                        t as int,
                    ).contains(x)));
                }
            }
            t = t + 1;
        }
        proof {
            assert(tags_i.take(tags_i.len() as int) =~= tags_i);
        }
        i = i + 1;
    }
    out
}

/// Fails with the atoms of the expression that no pool step carries as a
/// tag; succeeds exactly when every atom is some step's tag.
pub fn check_tags_exist(steps: &Vec<Step>, expr: &Expr) -> (r: Result<(), Error>)
    ensures
        match r {
            Ok(()) => forall|t: Seq<char>|
                spec_vars(expr@).contains(t) ==> exists|k: int|
                    0 <= k < steps.deep_view().len()
                        && #[trigger] steps.deep_view()[k].tags.contains(t),
            Err(e) => (e matches Error::UnknownTags { tags } && tags.deep_view().len() > 0
                && (forall|x: Seq<char>|
                #[trigger] tags.deep_view().contains(x) ==> spec_vars(expr@).contains(x)
                    && !exists|k: int|
                    0 <= k < steps.deep_view().len()
                        && #[trigger] steps.deep_view()[k].tags.contains(x))),
        },
{
    let ghost dv = steps.deep_view();
    let pool_tags = all_pool_tags(steps);
    let atoms = expr.vars();
    let ghost av = atoms.deep_view();
    let mut unknown: Vec<String> = Vec::new();
    let mut i: usize = 0;
    while i < atoms.len()
        invariant
            i <= av.len(),
            dv == steps.deep_view(),
            av == atoms.deep_view(),
            forall|t: Seq<char>| av.contains(t) == spec_vars(expr@).contains(t),
            forall|t: Seq<char>|
                pool_tags.deep_view().contains(t) == exists|k: int|
                    0 <= k < dv.len() && #[trigger] dv[k].tags.contains(t),
            forall|x: Seq<char>|
                #[trigger] unknown.deep_view().contains(x) ==> spec_vars(expr@).contains(x)
                    && !pool_tags.deep_view().contains(x),
            forall|j: int|
                0 <= j < i ==> pool_tags.deep_view().contains(#[trigger] av[j])
                    || unknown.deep_view().contains(av[j]),
        decreases av.len() - i,
    {
        assert(av[i as int] == atoms@[i as int]@);
        let ghost pre = unknown.deep_view();
        if !contains_string(&pool_tags, &atoms[i]) {
            unknown.push(atoms[i].clone());
            proof {
                assert(unknown.deep_view() =~= pre.push(av[i as int]));
                assert(av.contains(av[i as int]));
            }
        }
        proof {
            assert forall|x: Seq<char>|
                #[trigger] unknown.deep_view().contains(x) implies spec_vars(expr@).contains(x)
                && !pool_tags.deep_view().contains(x) by {
                lemma_push_contains(pre, av[i as int], x);
            }
            assert forall|j: int|
                0 <= j < i + 1 implies pool_tags.deep_view().contains(#[trigger] av[j])
                || unknown.deep_view().contains(av[j]) by {
                lemma_push_contains(pre, av[i as int], av[j]);
            }
        }
        i = i + 1;
    }
    if unknown.len() == 0 {
        proof {
            assert forall|t: Seq<char>| spec_vars(expr@).contains(t) implies exists|k: int|
                0 <= k < dv.len() && #[trigger] dv[k].tags.contains(t) by {
                assert(av.contains(t));
                let j = choose|j: int| 0 <= j < av.len() && av[j] == t;
                assert(pool_tags.deep_view().contains(av[j]) || unknown.deep_view().contains(
                    av[j],
                ));
            }
        }
        Ok(())
    } else {
        Err(Error::UnknownTags { tags: unknown })
    }
}

/// Partitions the pool by a parsed tag expression: `matching` holds the
/// steps whose tags satisfy it, `not_matching` the rest, both in order.
pub fn partition_by_tags(steps: &Vec<Step>, expr: &Expr) -> (r: FilterResult)
    ensures
        r.matching.deep_view() == tags_matching(steps.deep_view(), expr@),
        r.not_matching.deep_view() == tags_rejected(steps.deep_view(), expr@),
{
    let ghost dv = steps.deep_view();
    let mut matching: Vec<Step> = Vec::new();
    let mut not_matching: Vec<Step> = Vec::new();
    let mut i: usize = 0;
    while i < steps.len()
        invariant
            i <= dv.len(),
            dv == steps.deep_view(),
            matching.deep_view() =~= tags_matching(dv.take(i as int), expr@),
            not_matching.deep_view() =~= tags_rejected(dv.take(i as int), expr@),
        decreases dv.len() - i,
    {
        let step = &steps[i];
        assert(step@ == dv[i as int]);
        let ghost pre_m = matching.deep_view();
        let ghost pre_n = not_matching.deep_view();
        if eval_tags_expr(expr, &step.tags) {
            let s = step.clone();
            matching.push(s);
            assert(matching.deep_view() =~= pre_m.push(dv[i as int]));
        } else {
            let s = step.clone();
            not_matching.push(s);
            assert(not_matching.deep_view() =~= pre_n.push(dv[i as int]));
        }
        proof {
            lemma_take_step(dv, i as int);
            lemma_tags_matching_push(dv.take(i as int), dv[i as int], expr@);
        }
        i = i + 1;
    }
    proof {
        assert(dv.take(dv.len() as int) =~= dv);
    }
    FilterResult { matching, not_matching }
}

/// The tag stage: parses the expression, validates its atoms against the
/// pool's tags, then partitions.  Fails exactly on a malformed expression
/// or on an atom no step carries.
pub fn filter_by_tags(steps: &Vec<Step>, tags_expr: &str) -> (r: Result<FilterResult, Error>)
    ensures
        match r {
            Ok(fr) => {
                &&& spec_parse(tags_expr@) is Some
                &&& (forall|x: Seq<char>|
                    spec_vars(spec_parse(tags_expr@)->0).contains(x) ==> exists|k: int|
                        0 <= k < steps.deep_view().len()
                            && #[trigger] steps.deep_view()[k].tags.contains(x))
                &&& fr.matching.deep_view() == tags_matching(
                    steps.deep_view(),
                    spec_parse(tags_expr@)->0,
                )
                &&& fr.not_matching.deep_view() == tags_rejected(
                    steps.deep_view(),
                    spec_parse(tags_expr@)->0,
                )
            },
            Err(e) => {
                ||| (spec_parse(tags_expr@) is None && e is ExprParse)
                ||| (spec_parse(tags_expr@) is Some && e is UnknownTags && exists|x: Seq<char>|
                    spec_vars(spec_parse(tags_expr@)->0).contains(x) && !exists|k: int|
                        0 <= k < steps.deep_view().len()
                            && #[trigger] steps.deep_view()[k].tags.contains(x))
            },
        },
{
    match parse(tags_expr) {
        Err(e) => Err(e),
        Ok(expr) => {
            match check_tags_exist(steps, &expr) {
                Err(e) => {
                    proof {
                        if let Error::UnknownTags { tags } = &e {
                            assert(tags.deep_view().len() > 0);
                            assert(tags.deep_view().contains(tags.deep_view()[0]));
                            let w = tags.deep_view()[0];
                            assert(spec_vars(expr@).contains(w) && !exists|k: int|
                                0 <= k < steps.deep_view().len()
                                    && #[trigger] steps.deep_view()[k].tags.contains(w));
                        }
                    }
                    Err(e)
                },
                Ok(()) => {
                    let fr = partition_by_tags(steps, &expr);
                    proof {
                        assert(spec_parse(tags_expr@) == Some(expr@));
                        assert(spec_parse(tags_expr@)->0 == expr@);
                    }
                    Ok(fr)
                },
            }
        },
    }
}

/// The OS stage: keeps every step without an OS expression and every step
/// whose expression holds of the host; removes the rest, in order.
pub fn filter_by_os(steps: &Vec<Step>, os_info: &OsInfo) -> (r: FilterResult)
    ensures
        r.matching.deep_view() == os_matching(steps.deep_view(), os_info@),
        r.not_matching.deep_view() == os_rejected(steps.deep_view(), os_info@),
{
    let ghost dv = steps.deep_view();
    let mut matching: Vec<Step> = Vec::new();
    let mut not_matching: Vec<Step> = Vec::new();
    let mut i: usize = 0;
    while i < steps.len()
        invariant
            i <= dv.len(),
            dv == steps.deep_view(),
            matching.deep_view() =~= os_matching(dv.take(i as int), os_info@),
            not_matching.deep_view() =~= os_rejected(dv.take(i as int), os_info@),
        decreases dv.len() - i,
    {
        let step = &steps[i];
        assert(step@ == dv[i as int]);
        let ghost pre_m = matching.deep_view();
        let ghost pre_n = not_matching.deep_view();
        let keep_step = match &step.os {
            None => true,
            Some(e) => eval_os_expr(e, os_info),
        };
        if keep_step {
            let s = step.clone();
            matching.push(s);
            assert(matching.deep_view() =~= pre_m.push(dv[i as int]));
        } else {
            let s = step.clone();
            not_matching.push(s);
            assert(not_matching.deep_view() =~= pre_n.push(dv[i as int]));
        }
        proof {
            lemma_take_step(dv, i as int);
            lemma_os_matching_push(dv.take(i as int), dv[i as int], os_info@);
        }
        i = i + 1;
    }
    proof {
        assert(dv.take(dv.len() as int) =~= dv);
    }
    FilterResult { matching, not_matching }
}

/// The resume stage: everything before the first step with the given id is
/// removed (skipped), everything from it onward is kept, in order.  Fails
/// exactly when no step carries the id.
pub fn filter_steps_start_with_id(steps: &Vec<Step>, start_step_id: &String) -> (r: Result<
    FilterResult,
    Error,
>)
    ensures
        match r {
            Ok(fr) => {
                &&& has_id(steps.deep_view(), start_step_id@)
                &&& fr.matching.deep_view() == steps.deep_view().skip(
                    first_match_index(steps.deep_view(), start_step_id@),
                )
                &&& fr.not_matching.deep_view() == steps.deep_view().take(
                    first_match_index(steps.deep_view(), start_step_id@),
                )
            },
            Err(e) => !has_id(steps.deep_view(), start_step_id@) && (e
                matches Error::StartStepNotFound { id } && id@ == start_step_id@),
        },
{
    let ghost dv = steps.deep_view();
    match find_step_index(steps, start_step_id) {
        None => Err(Error::StartStepNotFound { id: start_step_id.clone() }),
        Some(pos) => {
            proof {
                assert(dv[pos as int].id == start_step_id@);
                assert(has_id(dv, start_step_id@));
                lemma_first_match_index(dv, start_step_id@);
                let w = first_match_index(dv, start_step_id@);
                assert(w == pos as int) by {
                    if w < pos as int {
                        assert(dv[w].id != start_step_id@);
                    }
                    if (pos as int) < w {
                        assert(dv[pos as int].id != start_step_id@);
                    }
                }
            }
            let mut matching: Vec<Step> = Vec::new();
            let mut not_matching: Vec<Step> = Vec::new();
            let mut i: usize = 0;
            while i < steps.len()
                invariant
                    i <= dv.len(),
                    dv == steps.deep_view(),
                    pos < dv.len(),
                    not_matching.deep_view() =~= dv.take(
                        if i <= pos {
                            i as int
                        } else {
                            pos as int
                        },
                    ),
                    matching.deep_view() =~= if i <= pos {
                        Seq::<StepV>::empty()
                    } else {
                        dv.subrange(pos as int, i as int)
                    },
                decreases dv.len() - i,
            {
                let step = &steps[i];
                assert(step@ == dv[i as int]);
                let ghost pre_m = matching.deep_view();
                let ghost pre_n = not_matching.deep_view();
                if i < pos {
                    let s = step.clone();
                    not_matching.push(s);
                    proof {
                        assert(not_matching.deep_view() =~= pre_n.push(dv[i as int]));
                        assert(not_matching.deep_view() =~= dv.take(i as int + 1));
                    }
                } else {
                    let s = step.clone();
                    matching.push(s);
                    proof {
                        assert(matching.deep_view() =~= pre_m.push(dv[i as int]));
                        assert(matching.deep_view() =~= dv.subrange(pos as int, i as int + 1));
                    }
                }
                i = i + 1;
            }
            proof {
                if steps.len() == 0 {
                    assert(false);
                }
                assert(dv.subrange(pos as int, dv.len() as int) =~= dv.skip(pos as int));
            }
            Ok(FilterResult { matching, not_matching })
        },
    }
}

/// Pairwise-distinct step ids.
pub open spec fn unique_ids(steps: Seq<StepV>) -> bool {
    forall|i: int, j: int| 0 <= i < j < steps.len() ==> steps[i].id != steps[j].id
}

/// Succeeds exactly when no two steps share an id; a duplicate is reported
/// with its id and the files both occurrences came from.
pub fn check_unique_id(steps: &Vec<Step>) -> (r: Result<(), Error>)
    ensures
        match r {
            Ok(()) => unique_ids(steps.deep_view()),
            Err(e) => !unique_ids(steps.deep_view()) && (e matches Error::DuplicateStep {
                id,
                first_file,
                second_file,
            } && exists|i: int, j: int|
                0 <= i < j < steps.deep_view().len() && steps.deep_view()[i].id
                    == steps.deep_view()[j].id && id@ == steps.deep_view()[j].id && first_file@
                    == steps.deep_view()[i].source_file && second_file@
                    == steps.deep_view()[j].source_file),
        },
{
    let ghost dv = steps.deep_view();
    let mut j: usize = 0;
    while j < steps.len()
        invariant
            j <= dv.len(),
            dv == steps.deep_view(),
            forall|a: int, b: int| 0 <= a < b < j ==> dv[a].id != dv[b].id,
        decreases dv.len() - j,
    {
        let mut i: usize = 0;
        while i < j
            invariant
                i <= j < dv.len(),
                dv == steps.deep_view(),
                forall|a: int| 0 <= a < i ==> dv[a].id != dv[j as int].id,
            decreases j - i,
        {
            assert(dv[i as int] == steps@[i as int]@);
            assert(dv[j as int] == steps@[j as int]@);
            if steps[i].id == steps[j].id {
                return Err(Error::DuplicateStep {
                    id: steps[j].id.clone(),
                    first_file: steps[i].source_file.clone(),
                    second_file: steps[j].source_file.clone(),
                });
            }
            i = i + 1;
        }
        j = j + 1;
    }
    Ok(())
}

/// Finds the first recorded missing variable named `name`.
fn find_missing(v: &Vec<MissingVar>, name: &String) -> (r: Option<usize>)
    ensures
        match r {
            Some(k) => k < v@.len() && v.deep_view()[k as int].name == name@,
            None => forall|m: int| 0 <= m < v.deep_view().len() ==> v.deep_view()[m].name != name@,
        },
{
    let ghost dv = v.deep_view();
    let mut i: usize = 0;
    while i < v.len()
        invariant
            i <= v@.len(),
            dv == v.deep_view(),
            forall|m: int| 0 <= m < i ==> dv[m].name != name@,
        decreases v@.len() - i,
    {
        assert(dv[i as int] == v@[i as int]@);
        if v[i].name == *name {
            return Some(i);
        }
        i = i + 1;
    }
    None
}

/// A recorded missing variable is truthful: each listed step exists,
/// needs the variable, and is listed under its own id.
pub open spec fn missing_entry_ok(dv: Seq<StepV>, entry: crate::error::MissingVarV) -> bool {
    forall|t: int|
        #![trigger entry.step_ids[t]]
        0 <= t < entry.step_ids.len() ==> exists|k: int|
            0 <= k < dv.len() && #[trigger] dv[k].id == entry.step_ids[t] && dv[k].env.contains(
                entry.name,
            )
}

/// The recorded missing variables carry pairwise distinct names.
pub open spec fn distinct_names(vars: Seq<crate::error::MissingVarV>) -> bool {
    forall|a: int, b: int| 0 <= a < b < vars.len() ==> vars[a].name != vars[b].name
}

/// Every step among the first `upto` that declares a recorded variable is
/// listed under that variable.
pub open spec fn entries_complete_for(
    dv: Seq<StepV>,
    vars: Seq<crate::error::MissingVarV>,
    upto: int,
) -> bool {
    forall|m: int, k: int|
        #![trigger vars[m].step_ids, dv[k].env]
        0 <= m < vars.len() && 0 <= k < upto && dv[k].env.contains(vars[m].name)
            ==> vars[m].step_ids.contains(dv[k].id)
}

/// Every recorded variable among `declared` is listed under `id`.
spec fn entries_cover_current(
    vars: Seq<crate::error::MissingVarV>,
    declared: Seq<Seq<char>>,
    id: Seq<char>,
) -> bool {
    forall|m: int|
        0 <= m < vars.len() && declared.contains(#[trigger] vars[m].name)
            ==> vars[m].step_ids.contains(id)
}

/// Checks that every environment variable a step declares is bound.
/// `defined` holds the names bound in the process environment.  Succeeds
/// exactly when nothing is missing; else reports every missing variable,
/// each with every step that needs it.
pub fn check_env(steps: &Vec<Step>, defined: &Vec<String>) -> (r: Result<(), Error>)
    ensures
        match r {
            Ok(()) => forall|k: int, e: Seq<char>|
                0 <= k < steps.deep_view().len() && #[trigger] steps.deep_view()[k].env.contains(
                    e,
                ) ==> defined.deep_view().contains(e),
            Err(err) => {
                &&& (err matches Error::MissingEnvVars { vars } && vars.deep_view().len() > 0 && (
                forall|m: int|
                    0 <= m < vars.deep_view().len() ==> {
                        &&& !defined.deep_view().contains(#[trigger] vars.deep_view()[m].name)
                        &&& vars.deep_view()[m].step_ids.len() > 0
                        &&& missing_entry_ok(steps.deep_view(), vars.deep_view()[m])
                    }) && distinct_names(vars.deep_view()) && (
                // every unbound declared variable is listed ...
                forall|k: int, e: Seq<char>|
                    0 <= k < steps.deep_view().len()
                        && #[trigger] steps.deep_view()[k].env.contains(e)
                        && !defined.deep_view().contains(e) ==> exists|m: int|
                        0 <= m < vars.deep_view().len() && #[trigger] vars.deep_view()[m].name
                            == e)
                // ... with every step that declares it
                 && entries_complete_for(
                    steps.deep_view(),
                    vars.deep_view(),
                    steps.deep_view().len() as int,
                ))
                &&& exists|k: int, e: Seq<char>|
                    0 <= k < steps.deep_view().len() && #[trigger] steps.deep_view()[k].env.contains(
                        e,
                    ) && !defined.deep_view().contains(e)
            },
        },
{
    let ghost dv = steps.deep_view();
    let ghost defv = defined.deep_view();
    let mut missing: Vec<MissingVar> = Vec::new();
    let mut i: usize = 0;
    while i < steps.len()
        invariant
            i <= dv.len(),
            dv == steps.deep_view(),
            defv == defined.deep_view(),
            forall|m: int|
                0 <= m < missing.deep_view().len() ==> {
                    &&& !defv.contains(#[trigger] missing.deep_view()[m].name)
                    &&& missing.deep_view()[m].step_ids.len() > 0
                    &&& missing_entry_ok(dv, missing.deep_view()[m])
                },
            forall|k: int, e: Seq<char>|
                0 <= k < i && #[trigger] dv[k].env.contains(e) && !defv.contains(e) ==> exists|m: int|
                    0 <= m < missing.deep_view().len() && #[trigger] missing.deep_view()[m].name
                        == e,
            distinct_names(missing.deep_view()),
            entries_complete_for(dv, missing.deep_view(), i as int),
        decreases dv.len() - i,
    {
        let step = &steps[i];
        assert(step@ == dv[i as int]);
        let ghost envs = dv[i as int].env;
        let mut t: usize = 0;
        while t < step.env.len()
            invariant
                t <= envs.len(),
                envs == step.env.deep_view(),
                step@ == dv[i as int],
                i < dv.len(),
                dv == steps.deep_view(),
                defv == defined.deep_view(),
                forall|m: int|
                    0 <= m < missing.deep_view().len() ==> {
                        &&& !defv.contains(#[trigger] missing.deep_view()[m].name)
                        &&& missing.deep_view()[m].step_ids.len() > 0
                        &&& missing_entry_ok(dv, missing.deep_view()[m])
                    },
                forall|k: int, e: Seq<char>|
                    0 <= k < i && #[trigger] dv[k].env.contains(e) && !defv.contains(e) ==> exists|m: int|
                        0 <= m < missing.deep_view().len() && #[trigger] missing.deep_view()[m].name
                            == e,
                forall|x: int|
                    0 <= x < t && !defv.contains(#[trigger] envs[x]) ==> exists|m: int|
                        0 <= m < missing.deep_view().len() && #[trigger] missing.deep_view()[m].name
                            == envs[x],
                distinct_names(missing.deep_view()),
                entries_complete_for(dv, missing.deep_view(), i as int),
                entries_cover_current(missing.deep_view(), envs.take(t as int), dv[i as int].id),
            decreases envs.len() - t,
        {
            assert(envs[t as int] == step.env@[t as int]@);
            let var = &step.env[t];
            assert(var@ == envs[t as int]);
            assert(dv[i as int].env.contains(envs[t as int]));
            let ghost pre = missing.deep_view();
            let bound = contains_string(defined, var);
            if !bound {
                match find_missing(&missing, var) {
                    Some(m) => {
                        let mut ids = missing[m].step_ids.clone();
                        let ghost ids_pre = missing.deep_view()[m as int].step_ids;
                        assert(ids.deep_view() =~= ids_pre);
                        ids.push(step.id.clone());
                        assert(ids.deep_view() =~= ids_pre.push(dv[i as int].id));
                        let nm = missing[m].name.clone();
                        missing.set(m, MissingVar { name: nm, step_ids: ids });
                        proof {
                            let e_new = crate::error::MissingVarV {
                                name: pre[m as int].name,
                                step_ids: ids_pre.push(dv[i as int].id),
                            };
                            assert(missing.deep_view() =~= pre.update(m as int, e_new));
                            assert(e_new.name == envs[t as int]);
                            assert forall|m2: int|
                                0 <= m2 < missing.deep_view().len() implies {
                                &&& !defv.contains(#[trigger] missing.deep_view()[m2].name)
                                &&& missing.deep_view()[m2].step_ids.len() > 0
                                &&& missing_entry_ok(dv, missing.deep_view()[m2])
                            } by {
                                assert(!defv.contains(pre[m2].name));
                                assert(missing_entry_ok(dv, pre[m2]));
                                if m2 != m as int {
                                    assert(missing.deep_view()[m2] == pre[m2]);
                                }
                                if m2 == m as int {
                                    assert(missing.deep_view()[m2] == e_new);
                                    assert forall|t2: int|
                                        #![trigger e_new.step_ids[t2]]
                                        0 <= t2 < e_new.step_ids.len() implies exists|k: int|
                                        0 <= k < dv.len() && #[trigger] dv[k].id
                                            == e_new.step_ids[t2] && dv[k].env.contains(
                                            e_new.name,
                                        ) by {
                                        if t2 < ids_pre.len() {
                                            assert(e_new.step_ids[t2] == pre[m2].step_ids[t2]);
                                        } else {
                                            assert(e_new.step_ids[t2] == dv[i as int].id);
                                            assert(dv[i as int].env.contains(e_new.name));
                                        }
                                    }
                                    assert(missing_entry_ok(dv, e_new));
                                }
                            }
                            assert forall|k: int, e: Seq<char>|
                                0 <= k < i && #[trigger] dv[k].env.contains(e) && !defv.contains(
                                    e,
                                ) implies exists|m2: int|
                                0 <= m2 < missing.deep_view().len()
                                    && #[trigger] missing.deep_view()[m2].name == e by {
                                let mw = choose|mw: int|
                                    0 <= mw < pre.len() && #[trigger] pre[mw].name == e;
                                assert(missing.deep_view()[mw].name == pre[mw].name);
                            }
                            assert forall|x: int|
                                0 <= x < t + 1 && !defv.contains(#[trigger] envs[x]) implies exists|m2: int|
                                0 <= m2 < missing.deep_view().len()
                                    && #[trigger] missing.deep_view()[m2].name == envs[x] by {
                                if x < t {
                                    let mw = choose|mw: int|
                                        0 <= mw < pre.len() && #[trigger] pre[mw].name == envs[x];
                                    assert(missing.deep_view()[mw].name == pre[mw].name);
                                } else {
                                    assert(missing.deep_view()[m as int].name == envs[t as int]);
                                }
                            }
                            assert(distinct_names(missing.deep_view())) by {
                                assert forall|a: int, b: int|
                                    0 <= a < b < missing.deep_view().len() implies missing.deep_view()[a].name
                                    != missing.deep_view()[b].name by {
                                    assert(missing.deep_view()[a].name == pre[a].name);
                                    assert(missing.deep_view()[b].name == pre[b].name);
                                }
                            }
                            assert(entries_complete_for(dv, missing.deep_view(), i as int)) by {
                                assert forall|m2: int, k: int|
                                    #![trigger missing.deep_view()[m2].step_ids, dv[k].env]
                                    0 <= m2 < missing.deep_view().len() && 0 <= k < i
                                        && dv[k].env.contains(missing.deep_view()[m2].name) implies missing.deep_view()[m2].step_ids.contains(
                                    dv[k].id,
                                ) by {
                                    let _ = pre[m2].step_ids;
                                    assert(missing.deep_view()[m2].name == pre[m2].name);
                                    assert(pre[m2].step_ids.contains(dv[k].id));
                                    if m2 == m as int {
                                        crate::seqs::lemma_push_contains(
                                            ids_pre,
                                            dv[i as int].id,
                                            dv[k].id,
                                        );
                                    } else {
                                        assert(missing.deep_view()[m2] == pre[m2]);
                                    }
                                }
                            }
                            assert(entries_cover_current(
                                missing.deep_view(),
                                envs.take(t as int + 1),
                                dv[i as int].id,
                            )) by {
                                lemma_take_step(envs, t as int);
                                assert forall|m2: int|
                                    0 <= m2 < missing.deep_view().len() && envs.take(
                                        t as int + 1,
                                    ).contains(#[trigger] missing.deep_view()[m2].name) implies missing.deep_view()[m2].step_ids.contains(
                                    dv[i as int].id,
                                ) by {
                                    lemma_push_contains(
                                        envs.take(t as int),
                                        envs[t as int],
                                        missing.deep_view()[m2].name,
                                    );
                                    if missing.deep_view()[m2].name == envs[t as int] {
                                        // distinct names: this is the updated entry
                                        assert(missing.deep_view()[m2].name == pre[m2].name);
                                        assert(m2 == m as int) by {
                                            if m2 != m as int {
                                                assert(pre[m2].name != pre[m as int].name);
                                            }
                                        }
                                        assert(missing.deep_view()[m2].step_ids
                                            == ids_pre.push(dv[i as int].id));
                                        assert(missing.deep_view()[m2].step_ids[ids_pre.len() as int]
                                            == dv[i as int].id);
                                    } else {
                                        assert(envs.take(t as int).contains(
                                            missing.deep_view()[m2].name,
                                        ));
                                        assert(pre[m2].step_ids.contains(dv[i as int].id));
                                        if m2 == m as int {
                                            crate::seqs::lemma_push_contains(
                                                ids_pre,
                                                dv[i as int].id,
                                                dv[i as int].id,
                                            );
                                        } else {
                                            assert(missing.deep_view()[m2] == pre[m2]);
                                        }
                                    }
                                }
                            }
                        }
                    },
                    None => {
                        let mut ids: Vec<String> = Vec::new();
                        ids.push(step.id.clone());
                        assert(ids.deep_view() =~= seq![dv[i as int].id]);
                        let entry = MissingVar { name: var.clone(), step_ids: ids };
                        missing.push(entry);
                        proof {
                            let e_new = crate::error::MissingVarV {
                                name: envs[t as int],
                                step_ids: seq![dv[i as int].id],
                            };
                            assert(entry@ == e_new);
                            assert(missing.deep_view() =~= pre.push(e_new));
                            assert forall|m2: int|
                                0 <= m2 < missing.deep_view().len() implies {
                                &&& !defv.contains(#[trigger] missing.deep_view()[m2].name)
                                &&& missing.deep_view()[m2].step_ids.len() > 0
                                &&& missing_entry_ok(dv, missing.deep_view()[m2])
                            } by {
                                if m2 < pre.len() {
                                    assert(missing.deep_view()[m2] == pre[m2]);
                                    assert(!defv.contains(pre[m2].name));
                                    assert(missing_entry_ok(dv, pre[m2]));
                                } else {
                                    assert(missing.deep_view()[m2] == e_new);
                                    assert forall|t2: int|
                                        #![trigger e_new.step_ids[t2]]
                                        0 <= t2 < e_new.step_ids.len() implies exists|k: int|
                                        0 <= k < dv.len() && #[trigger] dv[k].id
                                            == e_new.step_ids[t2] && dv[k].env.contains(
                                            e_new.name,
                                        ) by {
                                        assert(e_new.step_ids[t2] == dv[i as int].id);
                                        assert(dv[i as int].env.contains(e_new.name));
                                    }
                                    assert(missing_entry_ok(dv, e_new));
                                }
                            }
                            assert forall|k: int, e: Seq<char>|
                                0 <= k < i && #[trigger] dv[k].env.contains(e) && !defv.contains(
                                    e,
                                ) implies exists|m2: int|
                                0 <= m2 < missing.deep_view().len()
                                    && #[trigger] missing.deep_view()[m2].name == e by {
                                let mw = choose|mw: int|
                                    0 <= mw < pre.len() && #[trigger] pre[mw].name == e;
                                assert(missing.deep_view()[mw] == pre[mw]);
                            }
                            assert forall|x: int|
                                0 <= x < t + 1 && !defv.contains(#[trigger] envs[x]) implies exists|m2: int|
                                0 <= m2 < missing.deep_view().len()
                                    && #[trigger] missing.deep_view()[m2].name == envs[x] by {
                                if x < t {
                                    let mw = choose|mw: int|
                                        0 <= mw < pre.len() && #[trigger] pre[mw].name == envs[x];
                                    assert(missing.deep_view()[mw] == pre[mw]);
                                    assert(missing.deep_view()[mw].name == envs[x]);
                                } else {
                                    assert(missing.deep_view()[pre.len() as int] == e_new);
                                    assert(missing.deep_view()[pre.len() as int].name
                                        == envs[t as int]);
                                }
                            }
                            assert(distinct_names(missing.deep_view())) by {
                                assert forall|a: int, b: int|
                                    0 <= a < b < missing.deep_view().len() implies missing.deep_view()[a].name
                                    != missing.deep_view()[b].name by {
                                    if b < pre.len() {
                                        assert(missing.deep_view()[a] == pre[a]);
                                        assert(missing.deep_view()[b] == pre[b]);
                                    } else {
                                        assert(missing.deep_view()[a] == pre[a]);
                                        assert(missing.deep_view()[b] == e_new);
                                        // the new name was just found absent
                                        assert(pre[a].name != envs[t as int]);
                                    }
                                }
                            }
                            assert(entries_complete_for(dv, missing.deep_view(), i as int)) by {
                                assert forall|m2: int, k: int|
                                    #![trigger missing.deep_view()[m2].step_ids, dv[k].env]
                                    0 <= m2 < missing.deep_view().len() && 0 <= k < i
                                        && dv[k].env.contains(missing.deep_view()[m2].name) implies missing.deep_view()[m2].step_ids.contains(
                                    dv[k].id,
                                ) by {
                                    if m2 < pre.len() {
                                        let _ = pre[m2].step_ids;
                                        assert(missing.deep_view()[m2] == pre[m2]);
                                        assert(pre[m2].step_ids.contains(dv[k].id));
                                    } else {
                                        // an earlier step declaring this variable would
                                        // already have created an entry for it
                                        assert(missing.deep_view()[m2] == e_new);
                                        assert(dv[k].env.contains(envs[t as int]));
                                        assert(!defv.contains(envs[t as int]));
                                        let mw = choose|mw: int|
                                            0 <= mw < pre.len() && #[trigger] pre[mw].name
                                                == envs[t as int];
                                        assert(false);
                                    }
                                }
                            }
                            assert(entries_cover_current(
                                missing.deep_view(),
                                envs.take(t as int + 1),
                                dv[i as int].id,
                            )) by {
                                lemma_take_step(envs, t as int);
                                assert forall|m2: int|
                                    0 <= m2 < missing.deep_view().len() && envs.take(
                                        t as int + 1,
                                    ).contains(#[trigger] missing.deep_view()[m2].name) implies missing.deep_view()[m2].step_ids.contains(
                                    dv[i as int].id,
                                ) by {
                                    lemma_push_contains(
                                        envs.take(t as int),
                                        envs[t as int],
                                        missing.deep_view()[m2].name,
                                    );
                                    if m2 < pre.len() {
                                        assert(missing.deep_view()[m2] == pre[m2]);
                                        if pre[m2].name == envs[t as int] {
                                            assert(false);
                                        }
                                        assert(envs.take(t as int).contains(pre[m2].name));
                                        assert(pre[m2].step_ids.contains(dv[i as int].id));
                                    } else {
                                        assert(missing.deep_view()[m2] == e_new);
                                        assert(e_new.step_ids[0] == dv[i as int].id);
                                    }
                                }
                            }
                        }
                    },
                }
            }
            proof {
                // when this variable was already bound the record is untouched,
                // and the entry facts carry over verbatim
                assert forall|m2: int|
                    0 <= m2 < missing.deep_view().len() implies {
                    &&& !defv.contains(#[trigger] missing.deep_view()[m2].name)
                    &&& missing.deep_view()[m2].step_ids.len() > 0
                    &&& missing_entry_ok(dv, missing.deep_view()[m2])
                } by {
                    if missing.deep_view() =~= pre {
                        assert(missing.deep_view() == pre);
                        assert(!defv.contains(pre[m2].name));
                        assert(pre[m2].step_ids.len() > 0);
                        assert(missing_entry_ok(dv, pre[m2]));
                    }
                }
                if bound {
                    assert(missing.deep_view() == pre);
                    assert(entries_cover_current(
                        missing.deep_view(),
                        envs.take(t as int + 1),
                        dv[i as int].id,
                    )) by {
                        lemma_take_step(envs, t as int);
                        assert forall|m2: int|
                            0 <= m2 < missing.deep_view().len() && envs.take(t as int + 1).contains(
                                #[trigger] missing.deep_view()[m2].name,
                            ) implies missing.deep_view()[m2].step_ids.contains(
                            dv[i as int].id,
                        ) by {
                            lemma_push_contains(
                                envs.take(t as int),
                                envs[t as int],
                                missing.deep_view()[m2].name,
                            );
                            // a recorded name is unbound, so it cannot be the
                            // bound variable handled this round
                            assert(!defv.contains(missing.deep_view()[m2].name));
                            assert(missing.deep_view()[m2].name != envs[t as int]);
                            assert(envs.take(t as int).contains(missing.deep_view()[m2].name));
                        }
                    }
                }
            }
            t = t + 1;
        }
        proof {
            assert forall|e: Seq<char>|
                #[trigger] dv[i as int].env.contains(e) && !defv.contains(e) implies exists|m: int|
                0 <= m < missing.deep_view().len() && #[trigger] missing.deep_view()[m].name
                    == e by {
                let x = choose|x: int| 0 <= x < envs.len() && envs[x] == e;
            }
            assert(envs.take(envs.len() as int) =~= envs);
            assert(entries_complete_for(dv, missing.deep_view(), i as int + 1)) by {
                assert forall|m2: int, k: int|
                    #![trigger missing.deep_view()[m2].step_ids, dv[k].env]
                    0 <= m2 < missing.deep_view().len() && 0 <= k < i + 1 && dv[k].env.contains(
                        missing.deep_view()[m2].name,
                    ) implies missing.deep_view()[m2].step_ids.contains(dv[k].id) by {
                    if k < i {
                        assert(missing.deep_view()[m2].step_ids.contains(dv[k].id));
                    } else {
                        assert(envs.contains(missing.deep_view()[m2].name));
                        assert(missing.deep_view()[m2].step_ids.contains(dv[i as int].id));
                    }
                }
            }
        }
        i = i + 1;
    }
    if missing.len() == 0 {
        proof {
            assert forall|k: int, e: Seq<char>|
                0 <= k < dv.len() && #[trigger] dv[k].env.contains(e) implies defv.contains(e) by {
                if !defv.contains(e) {
                    assert(exists|m: int|
                        0 <= m < missing.deep_view().len()
                            && #[trigger] missing.deep_view()[m].name == e);
                }
            }
        }
        Ok(())
    } else {
        proof {
            let ghost nm0 = missing.deep_view()[0].name;
            assert(!defv.contains(nm0));
            assert(missing.deep_view()[0].step_ids.len() > 0);
            let ghost id0 = missing.deep_view()[0].step_ids[0];
            assert(exists|k: int|
                0 <= k < dv.len() && #[trigger] dv[k].id == id0 && dv[k].env.contains(nm0));
        }
        Err(Error::MissingEnvVars { vars: missing })
    }
}

/// The pool after explicit id selection: the requested steps in request
/// order, or the whole pool when nothing was requested.
pub open spec fn after_id_selection(steps: Seq<StepV>, req: Seq<Seq<char>>) -> Seq<StepV> {
    if req.len() == 0 {
        steps
    } else {
        req.map_values(|id: Seq<char>| step_with_id(steps, id))
    }
}

/// The outcome of the whole pipeline: the steps left to run and the steps
/// each stage removed.
pub struct StepSelection {
    pub filtered_steps: Vec<Step>,
    pub excluded_by_tags: Vec<Step>,
    pub excluded_by_os: Vec<Step>,
    pub skipped: Vec<Step>,
}

/// Whether every stage of the pipeline succeeds on these inputs.
pub open spec fn spec_filter_ok(
    dv: Seq<StepV>,
    info: OsInfoV,
    tags_expr: Option<Seq<char>>,
    req: Seq<Seq<char>>,
    start: Option<Seq<char>>,
) -> bool {
    let pool1 = after_id_selection(dv, req);
    let pool2 = match tags_expr {
        Some(te) => match spec_parse(te) {
            Some(e) => tags_matching(pool1, e),
            None => pool1,
        },
        None => pool1,
    };
    let pool3 = os_matching(pool2, info);
    {
        &&& unknown_ids(dv, req).len() == 0
        &&& match tags_expr {
            Some(te) => spec_parse(te) is Some && (forall|x: Seq<char>|
                spec_vars(spec_parse(te)->0).contains(x) ==> exists|k: int|
                    0 <= k < dv.len() && #[trigger] dv[k].tags.contains(x)),
            None => true,
        }
        &&& match start {
            Some(id) => has_id(pool3, id),
            None => true,
        }
    }
}

/// What the pipeline keeps and removes, stage by stage, when it succeeds.
pub open spec fn spec_selection(
    dv: Seq<StepV>,
    info: OsInfoV,
    tags_expr: Option<Seq<char>>,
    req: Seq<Seq<char>>,
    start: Option<Seq<char>>,
) -> (Seq<StepV>, Seq<StepV>, Seq<StepV>, Seq<StepV>) {
    let pool1 = after_id_selection(dv, req);
    let excluded_by_tags = match tags_expr {
        Some(te) => match spec_parse(te) {
            Some(e) => tags_rejected(pool1, e),
            None => Seq::empty(),
        },
        None => Seq::empty(),
    };
    let pool2 = match tags_expr {
        Some(te) => match spec_parse(te) {
            Some(e) => tags_matching(pool1, e),
            None => pool1,
        },
        None => pool1,
    };
    let pool3 = os_matching(pool2, info);
    let excluded_by_os = os_rejected(pool2, info);
    let skipped = match start {
        Some(id) => pool3.take(first_match_index(pool3, id)),
        None => Seq::empty(),
    };
    let pool4 = match start {
        Some(id) => pool3.skip(first_match_index(pool3, id)),
        None => pool3,
    };
    (pool4, excluded_by_tags, excluded_by_os, skipped)
}

/// Runs the pipeline in its fixed stage order: explicit ids, tag
/// expression, OS compatibility, resume start point.  Succeeds exactly
/// when every requested stage succeeds, and returns what each stage
/// removed so the caller can attribute the reason.
pub fn filter_steps(steps: &Vec<Step>, os_info: &OsInfo, args: &RunArgs) -> (r: Result<
    StepSelection,
    Error,
>)
    ensures
        ({
            let tev = match args.tags_expr {
                Some(te) => Some(te@),
                None => None,
            };
            let stv = match args.start_step_id {
                Some(id) => Some(id@),
                None => None,
            };
            let ok = spec_filter_ok(
                steps.deep_view(),
                os_info@,
                tev,
                args.steps.deep_view(),
                stv,
            );
            match r {
                Ok(sel) => ok && ({
                    let parts = spec_selection(
                        steps.deep_view(),
                        os_info@,
                        tev,
                        args.steps.deep_view(),
                        stv,
                    );
                    &&& sel.filtered_steps.deep_view() == parts.0
                    &&& sel.excluded_by_tags.deep_view() == parts.1
                    &&& sel.excluded_by_os.deep_view() == parts.2
                    &&& sel.skipped.deep_view() == parts.3
                }),
                Err(_) => !ok,
            }
        }),
{
    let ghost dv = steps.deep_view();
    let ghost reqv = args.steps.deep_view();
    let ghost tev: Option<Seq<char>> = match args.tags_expr {
        Some(ref te) => Some(te@),
        None => None,
    };
    let ghost stv: Option<Seq<char>> = match args.start_step_id {
        Some(ref id) => Some(id@),
        None => None,
    };
    let ghost pool1 = after_id_selection(dv, reqv);

    let mut filtered_steps: Vec<Step>;
    if args.steps.len() > 0 {
        match select_steps_by_id(steps, &args.steps) {
            Ok(sel) => {
                filtered_steps = sel;
                proof {
                    assert(filtered_steps.deep_view() =~= pool1);
                }
            },
            Err(e) => {
                return Err(e);
            },
        }
    } else {
        filtered_steps = clone_steps(steps);
        proof {
            assert(reqv.len() == 0);
            assert(unknown_ids(dv, reqv).len() == 0);
            assert(filtered_steps.deep_view() =~= pool1);
        }
    }
    assert(unknown_ids(dv, reqv).len() == 0);
    assert(filtered_steps.deep_view() == pool1);

    let ghost pool2: Seq<StepV> = match tev {
        Some(te) => match spec_parse(te) {
            Some(e) => tags_matching(pool1, e),
            None => pool1,
        },
        None => pool1,
    };
    let ghost ex_tags: Seq<StepV> = match tev {
        Some(te) => match spec_parse(te) {
            Some(e) => tags_rejected(pool1, e),
            None => Seq::<StepV>::empty(),
        },
        None => Seq::<StepV>::empty(),
    };
    let mut excluded_by_tags: Vec<Step> = Vec::new();
    match &args.tags_expr {
        Some(te) => {
            // atoms are validated against the original full pool, so an
            // explicit id selection cannot turn a known tag into a typo
            let expr = match parse(te.as_str()) {
                Ok(expr) => expr,
                Err(e) => {
                    return Err(e);
                },
            };
            match check_tags_exist(steps, &expr) {
                Ok(()) => {},
                Err(e) => {
                    proof {
                        assert(spec_parse(te@) == Some(expr@));
                        if let Error::UnknownTags { tags } = &e {
                            assert(tags.deep_view().contains(tags.deep_view()[0]));
                        }
                    }
                    return Err(e);
                },
            }
            let fr = partition_by_tags(&filtered_steps, &expr);
            excluded_by_tags = fr.not_matching;
            filtered_steps = fr.matching;
            proof {
                assert(spec_parse(te@) == Some(expr@));
                assert(filtered_steps.deep_view() == pool2);
                assert(excluded_by_tags.deep_view() == ex_tags);
            }
        },
        None => {
            proof {
                assert(excluded_by_tags.deep_view() =~= ex_tags);
            }
        },
    }
    assert(filtered_steps.deep_view() == pool2);

    let os_result = filter_by_os(&filtered_steps, os_info);
    let excluded_by_os = os_result.not_matching;
    filtered_steps = os_result.matching;
    let ghost pool3 = os_matching(pool2, os_info@);
    assert(filtered_steps.deep_view() == pool3);
    assert(excluded_by_os.deep_view() == os_rejected(pool2, os_info@));

    let mut skipped: Vec<Step> = Vec::new();
    match &args.start_step_id {
        Some(start_id) => {
            match filter_steps_start_with_id(&filtered_steps, start_id) {
                Ok(fr) => {
                    skipped = fr.not_matching;
                    filtered_steps = fr.matching;
                    proof {
                        assert(has_id(pool3, start_id@));
                        assert(filtered_steps.deep_view() == pool3.skip(
                            first_match_index(pool3, start_id@),
                        ));
                        assert(skipped.deep_view() == pool3.take(
                            first_match_index(pool3, start_id@),
                        ));
                    }
                },
                Err(e) => {
                    return Err(e);
                },
            }
        },
        None => {
            proof {
                assert(skipped.deep_view() =~= Seq::<StepV>::empty());
            }
        },
    }

    proof {
        let parts = spec_selection(dv, os_info@, tev, reqv, stv);
        assert(filtered_steps.deep_view() == parts.0);
        assert(excluded_by_tags.deep_view() == parts.1);
        assert(excluded_by_os.deep_view() == parts.2);
        assert(skipped.deep_view() == parts.3);
        assert(spec_filter_ok(dv, os_info@, tev, reqv, stv));
    }
    Ok(StepSelection { filtered_steps, excluded_by_tags, excluded_by_os, skipped })
}

/// Copies a step pool, keeping its image.
fn clone_steps(steps: &Vec<Step>) -> (r: Vec<Step>)
    ensures
        r.deep_view() == steps.deep_view(),
{
    let ghost dv = steps.deep_view();
    let mut out: Vec<Step> = Vec::new();
    let mut i: usize = 0;
    while i < steps.len()
        invariant
            i <= dv.len(),
            dv == steps.deep_view(),
            out.deep_view() =~= dv.take(i as int),
        decreases dv.len() - i,
    {
        let ghost pre = out.deep_view();
        assert(steps@[i as int]@ == dv[i as int]);
        let s = steps[i].clone();
        out.push(s);
        proof {
            assert(out.deep_view() =~= pre.push(dv[i as int]));
            lemma_take_step(dv, i as int);
        }
        i = i + 1;
    }
    proof {
        assert(dv.take(dv.len() as int) =~= dv);
    }
    out
}

} // verus!
