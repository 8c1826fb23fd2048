//! The bounded resolution loop: repeated compilation attempts are classified
//! one by one, missing-package names are accumulated, and the loop ends in
//! one of four terminal states. The loop only detects; installing what it
//! found between attempts is its caller's task.
use vstd::prelude::*;

use crate::classifier::{spec_is_package_related, spec_missing_name};
use crate::tex_parser::TeXParser;
use crate::text::{
    contains_str, lemma_sorted_unique_eq, strictly_sorted, vec_contains_str, views_of,
};

verus! {

/// The fixed ceiling on resolution iterations.
pub const MAX_RESOLUTION_ITERATIONS: u32 = 10;

/// What one run of the whole compile chain came to: success, or the
/// failing step's one-based index and combined output.
pub struct AttemptOutcome {
    pub success: bool,
    pub failed_step: usize,
    pub output: String,
}

/// Mathematical model of an attempt outcome.
pub struct OutcomeModel {
    pub success: bool,
    pub failed_step: int,
    pub output: Seq<char>,
}

impl View for AttemptOutcome {
    type V = OutcomeModel;

    open spec fn view(&self) -> OutcomeModel {
        OutcomeModel {
            success: self.success,
            failed_step: self.failed_step as int,
            output: self.output@,
        }
    }
}

/// The models of a sequence of attempt outcomes.
pub open spec fn outcome_views(v: Seq<AttemptOutcome>) -> Seq<OutcomeModel> {
    v.map_values(|o: AttemptOutcome| o@)
}

/// The terminal state a resolution run ends in.
#[derive(Debug)]
pub enum ResolutionStatus {
    /// Every step of some attempt succeeded.
    Converged,
    /// An attempt failed in a way installation cannot cure, or was
    /// package-related without naming any package; the failing step's
    /// one-based index and raw output are kept.
    Fatal { step: usize, output: String },
    /// An attempt reported only packages that were already known: without
    /// installation in between, retrying would loop forever.
    Stalled,
    /// The iteration ceiling was reached, or the probe gave no further
    /// outcome; what was accumulated so far is still returned.
    ExhaustedIterations,
}

/// The result of a resolution run.
pub struct ResolutionReport {
    pub status: ResolutionStatus,
    pub missing_packages: Vec<String>,
    pub iterations: u32,
}

/// `y` was reported missing by a failed, package-related attempt before
/// `upto`.
pub open spec fn merged_name(oms: Seq<OutcomeModel>, upto: int, y: Seq<char>) -> bool {
    exists|u: int|
        0 <= u < upto && !(#[trigger] oms[u]).success && spec_is_package_related(oms[u].output)
            && spec_missing_name(oms[u].output, y)
}

/// Attempt `u` failed, was package-related, and named at least one package
/// no earlier such attempt had named: the one situation after which the
/// loop goes on to another attempt.
pub open spec fn productive_attempt(oms: Seq<OutcomeModel>, u: int) -> bool {
    &&& 0 <= u < oms.len()
    &&& !oms[u].success
    &&& spec_is_package_related(oms[u].output)
    &&& exists|y: Seq<char>| spec_missing_name(oms[u].output, y) && !merged_name(oms, u, y)
}

/// The ascending name list the classifier reports for an output: the one
/// strictly sorted sequence whose members are exactly the reported names.
pub open spec fn canonical_names(out: Seq<char>) -> Seq<Seq<char>> {
    choose|v: Seq<Seq<char>>|
        strictly_sorted(v) && (forall|y: Seq<char>|
            #[trigger] contains_str(v, y) <==> spec_missing_name(out, y))
}

proof fn lemma_canonical_matches(out: Seq<char>, nv: Seq<Seq<char>>)
    requires
        strictly_sorted(nv),
        forall|y: Seq<char>| #[trigger] contains_str(nv, y) <==> spec_missing_name(out, y),
    ensures
        canonical_names(out) == nv,
{
    assert(exists|v: Seq<Seq<char>>|
        strictly_sorted(v) && (forall|y: Seq<char>|
            #[trigger] contains_str(v, y) <==> spec_missing_name(out, y)));
    let v0 = canonical_names(out);
    assert(strictly_sorted(v0) && (forall|y: Seq<char>|
        #[trigger] contains_str(v0, y) <==> spec_missing_name(out, y)));
    assert forall|y: Seq<char>| contains_str(v0, y) <==> contains_str(nv, y) by {}
    lemma_sorted_unique_eq(v0, nv);
}

/// The entries of `v` not named in `prior`, in order.
pub open spec fn filter_new(v: Seq<Seq<char>>, prior: Seq<Seq<char>>) -> Seq<Seq<char>>
    decreases v.len(),
{
    if v.len() == 0 {
        Seq::empty()
    } else {
        (if contains_str(prior, v[0]) {
            Seq::<Seq<char>>::empty()
        } else {
            seq![v[0]]
        }) + filter_new(v.drop_first(), prior)
    }
}

proof fn lemma_filter_new_all_old(v: Seq<Seq<char>>, prior: Seq<Seq<char>>)
    requires
        forall|k: int| 0 <= k < v.len() ==> contains_str(prior, #[trigger] v[k]),
    ensures
        filter_new(v, prior) == Seq::<Seq<char>>::empty(),
    decreases v.len(),
{
    if v.len() > 0 {
        lemma_filter_new_all_old(v.drop_first(), prior);
        assert(filter_new(v, prior) =~= Seq::<Seq<char>>::empty());
    }
}

/// The exact list the loop accumulates over the first `upto` attempts:
/// after each failed, package-related attempt, the ascending names it
/// reports that are not yet listed are appended, in that order.
pub open spec fn accumulated_names(oms: Seq<OutcomeModel>, upto: int) -> Seq<Seq<char>>
    decreases upto,
{
    if upto <= 0 {
        Seq::empty()
    } else {
        let prior = accumulated_names(oms, upto - 1);
        if upto - 1 < oms.len() && !oms[upto - 1].success && spec_is_package_related(
            oms[upto - 1].output,
        ) {
            prior + filter_new(canonical_names(oms[upto - 1].output), prior)
        } else {
            prior
        }
    }
}

/// Orchestrates bounded compile-and-classify cycles over the outcomes a
/// probe produced.
pub struct IterativeResolutionLoop {}

impl IterativeResolutionLoop {
    pub fn new() -> (r: IterativeResolutionLoop) {
        IterativeResolutionLoop {  }
    }

    /// Run the resolution state machine over successive attempt outcomes:
    /// `outcomes[t]` is what the compile chain did on iteration `t + 1`.
    /// The report says how many outcomes were consumed, in which terminal
    /// state the loop ended, and which package names were accumulated.
    pub fn run(&self, outcomes: &Vec<AttemptOutcome>) -> (r: ResolutionReport)
        ensures
            r.iterations <= MAX_RESOLUTION_ITERATIONS,
            r.iterations <= outcomes@.len(),
            // what was accumulated: exactly the names any consumed, failed,
            // package-related attempt reported
            forall|y: Seq<char>|
                contains_str(views_of(r.missing_packages@), y) <==> merged_name(
                    outcome_views(outcomes@),
                    r.iterations as int,
                    y,
                ),
            // no name is listed twice
            forall|i: int, j: int|
                0 <= i < j < r.missing_packages@.len() ==> views_of(r.missing_packages@)[i]
                    != views_of(r.missing_packages@)[j],
            // the order is fixed too: names stand grouped by the attempt
            // that first reported them, ascending within each group
            views_of(r.missing_packages@) == accumulated_names(
                outcome_views(outcomes@),
                r.iterations as int,
            ),
            // convergence comes only from a successful attempt
            r.status matches ResolutionStatus::Converged ==> r.iterations >= 1 && outcome_views(
                outcomes@,
            )[r.iterations - 1].success,
            // a first successful attempt converges at once, with nothing missing
            outcomes@.len() >= 1 && outcome_views(outcomes@)[0].success ==> (r.status matches
                ResolutionStatus::Converged) && r.iterations == 1 && r.missing_packages@.len()
                == 0,
            // a fatal end carries the failing attempt's raw output, which was
            // either not package-related or named no package
            r.status matches ResolutionStatus::Fatal { step, output } ==> r.iterations >= 1 && {
                let om = outcome_views(outcomes@)[r.iterations - 1];
                &&& !om.success
                &&& step == om.failed_step
                &&& output@ == om.output
                &&& (!spec_is_package_related(om.output) || !(exists|y: Seq<char>|
                    spec_missing_name(om.output, y)))
            },
            // a stall means the last attempt was package-related but named
            // nothing new
            r.status matches ResolutionStatus::Stalled ==> r.iterations >= 1 && {
                let om = outcome_views(outcomes@)[r.iterations - 1];
                &&& !om.success
                &&& spec_is_package_related(om.output)
                &&& (exists|y: Seq<char>| spec_missing_name(om.output, y))
                &&& (forall|y: Seq<char>|
                    spec_missing_name(om.output, y) ==> merged_name(
                        outcome_views(outcomes@),
                        r.iterations - 1,
                        y,
                    ))
            },
            // a probe that keeps failing with one and the same package-related
            // output stalls after exactly two iterations
            (outcomes@.len() >= 2 && (forall|t: int|
                0 <= t < outcomes@.len() ==> !(#[trigger] outcome_views(outcomes@)[t]).success
                    && outcome_views(outcomes@)[t].output == outcome_views(outcomes@)[0].output)
                && spec_is_package_related(outcome_views(outcomes@)[0].output) && (
            exists|y: Seq<char>|
                spec_missing_name(outcome_views(outcomes@)[0].output, y))) ==> (r.status matches
                ResolutionStatus::Stalled) && r.iterations == 2,
            // every attempt before the last consumed one was a failed,
            // package-related attempt that named something new: nothing
            // else lets the loop go on, so a terminal attempt forces its
            // terminal state at once
            forall|u: int|
                0 <= u < r.iterations - 1 ==> productive_attempt(outcome_views(outcomes@), u),
            // exhaustion means the ceiling was hit or the outcomes ran out,
            // with every consumed attempt productive: a hard or
            // unidentifiable failure can never be reported as exhaustion
            r.status matches ResolutionStatus::ExhaustedIterations ==> (r.iterations
                == MAX_RESOLUTION_ITERATIONS || r.iterations == outcomes@.len()) && (forall|u: int|
                0 <= u < r.iterations ==> productive_attempt(outcome_views(outcomes@), u)),
    {
        let parser = match TeXParser::new() {
            Ok(p) => p,
            Err(_) => {
                return ResolutionReport {
                    status: ResolutionStatus::ExhaustedIterations,
                    missing_packages: Vec::new(),
                    iterations: 0,
                };
            },
        };
        let max: usize = 10;
        let ghost oms = outcome_views(outcomes@);
        let mut missing: Vec<String> = Vec::new();
        let mut t: usize = 0;
        proof {
            assert(accumulated_names(oms, 0) == Seq::<Seq<char>>::empty());
            assert(views_of(missing@) =~= Seq::<Seq<char>>::empty());
        }
        while t < max && t < outcomes.len()
            invariant
                t <= max,
                max == MAX_RESOLUTION_ITERATIONS,
                t <= outcomes@.len(),
                oms == outcome_views(outcomes@),
                forall|y: Seq<char>|
                    contains_str(views_of(missing@), y) <==> merged_name(oms, t as int, y),
                forall|i: int, j: int|
                    0 <= i < j < missing@.len() ==> views_of(missing@)[i] != views_of(missing@)[j],
                views_of(missing@) == accumulated_names(oms, t as int),
                // every earlier attempt failed, was package-related, and
                // named something new
                forall|u: int| 0 <= u < t ==> productive_attempt(oms, u),
            decreases max - t,
        {
            let ghost om = oms[t as int];
            if outcomes[t].success {
                proof {
                    if t > 0 {
                        assert(productive_attempt(oms, 0));
                        assert(!oms[0].success);
                    }
                    if missing@.len() > 0 {
                        assert(contains_str(views_of(missing@), views_of(missing@)[0]));
                    }
                    assert(((t as u32) + 1) as int == t + 1);
                    assert(oms[t as int].success);
                    assert forall|y: Seq<char>|
                        contains_str(views_of(missing@), y) == merged_name(oms, t + 1, y) by {
                        if contains_str(views_of(missing@), y) {
                            assert(merged_name(oms, t as int, y));
                            let u = choose|u: int|
                                0 <= u < t as int && !(#[trigger] oms[u]).success
                                    && spec_is_package_related(oms[u].output) && spec_missing_name(
                                    oms[u].output,
                                    y,
                                );
                            assert(0 <= u < t + 1 && !oms[u].success && spec_is_package_related(
                                oms[u].output,
                            ) && spec_missing_name(oms[u].output, y));
                            assert(merged_name(oms, t + 1, y));
                        }
                        if merged_name(oms, t + 1, y) {
                            let u = choose|u: int|
                                0 <= u < t + 1 && !(#[trigger] oms[u]).success
                                    && spec_is_package_related(oms[u].output) && spec_missing_name(
                                    oms[u].output,
                                    y,
                                );
                            assert(u != t as int);
                            assert(merged_name(oms, t as int, y));
                            assert(contains_str(views_of(missing@), y));
                        }
                    }
                }
                proof {
                    assert(oms.len() == outcomes@.len());
                    assert(accumulated_names(oms, t + 1) == accumulated_names(oms, t as int));
                }
                return ResolutionReport {
                    status: ResolutionStatus::Converged,
                    missing_packages: missing,
                    iterations: (t as u32) + 1,
                };
            }
            let related = parser.is_package_related_error(outcomes[t].output.as_str());
            let names = parser.parse_compilation_errors(outcomes[t].output.as_str());
            if !related || names.len() == 0 {
                proof {
                    if names@.len() == 0 {
                        assert(forall|y: Seq<char>|
                            spec_missing_name(om.output, y) ==> contains_str(
                                views_of(names@),
                                y,
                            ));
                        if exists|y: Seq<char>| spec_missing_name(om.output, y) {
                            let y = choose|y: Seq<char>| spec_missing_name(om.output, y);
                            assert(contains_str(views_of(names@), y));
                            assert(false);
                        }
                    }
                    if t > 0 {
                        assert(productive_attempt(oms, 0));
                        assert(!oms[0].success);
                    }
                    // the repeated-failure premise cannot hold here: its
                    // first output is package-related and names a package
                    if outcomes@.len() >= 2 && (forall|t2: int|
                        0 <= t2 < outcomes@.len() ==> !(#[trigger] oms[t2]).success
                            && oms[t2].output == oms[0].output) && spec_is_package_related(
                        oms[0].output,
                    ) && (exists|y: Seq<char>| spec_missing_name(oms[0].output, y)) {
                        assert(oms[t as int].output == oms[0].output);
                        assert(false);
                    }
                }
                proof {
                    assert(((t as u32) + 1) as int == t + 1);
                    assert forall|y: Seq<char>|
                        contains_str(views_of(missing@), y) == merged_name(oms, t + 1, y) by {
                        if contains_str(views_of(missing@), y) {
                            assert(merged_name(oms, t as int, y));
                            let u = choose|u: int|
                                0 <= u < t as int && !(#[trigger] oms[u]).success
                                    && spec_is_package_related(oms[u].output) && spec_missing_name(
                                    oms[u].output,
                                    y,
                                );
                            assert(0 <= u < t + 1 && !oms[u].success && spec_is_package_related(
                                oms[u].output,
                            ) && spec_missing_name(oms[u].output, y));
                            assert(merged_name(oms, t + 1, y));
                        }
                        if merged_name(oms, t + 1, y) {
                            let u = choose|u: int|
                                0 <= u < t + 1 && !(#[trigger] oms[u]).success
                                    && spec_is_package_related(oms[u].output) && spec_missing_name(
                                    oms[u].output,
                                    y,
                                );
                            if u == t as int {
                                assert(contains_str(views_of(names@), y));
                                assert(false);
                            }
                            assert(merged_name(oms, t as int, y));
                            assert(contains_str(views_of(missing@), y));
                        }
                    }
                }
                proof {
                    assert(oms.len() == outcomes@.len());
                    assert(!oms[t as int].success);
                    if spec_is_package_related(om.output) {
                        // package-related but unidentifiable: the attempt
                        // names nothing, so nothing is appended
                        assert(views_of(names@).len() == 0);
                        lemma_canonical_matches(om.output, views_of(names@));
                        assert(filter_new(
                            canonical_names(om.output),
                            accumulated_names(oms, t as int),
                        ) =~= Seq::<Seq<char>>::empty());
                        assert(accumulated_names(oms, t + 1) =~= accumulated_names(oms, t as int));
                    } else {
                        assert(accumulated_names(oms, t + 1) == accumulated_names(oms, t as int));
                    }
                }
                let out_copy = crate::text::str_copy(outcomes[t].output.as_str());
                let step = outcomes[t].failed_step;
                return ResolutionReport {
                    status: ResolutionStatus::Fatal { step, output: out_copy },
                    missing_packages: missing,
                    iterations: (t as u32) + 1,
                };
            }
            let mut found_new: bool = false;
            let mut j: usize = 0;
            while j < names.len()
                invariant
                    j <= names.len(),
                    oms == outcome_views(outcomes@),
                    t < outcomes@.len(),
                    om == oms[t as int],
                    forall|y: Seq<char>|
                        contains_str(views_of(missing@), y) <==> merged_name(oms, t as int, y),
                    forall|y: Seq<char>|
                        contains_str(views_of(names@), y) <==> spec_missing_name(om.output, y),
                    found_new == (exists|k: int|
                        0 <= k < j && !merged_name(oms, t as int, #[trigger] views_of(names@)[k])),
                decreases names.len() - j,
            {
                if !vec_contains_str(&missing, names[j].as_str()) {
                    proof {
                        assert(contains_str(views_of(names@), views_of(names@)[j as int]));
                        assert(!merged_name(oms, t as int, views_of(names@)[j as int]));
                    }
                    found_new = true;
                } else {
                    proof {
                        if !found_new {
                            assert(forall|k: int|
                                0 <= k < j + 1 ==> merged_name(
                                    oms,
                                    t as int,
                                    #[trigger] views_of(names@)[k],
                                ));
                        }
                    }
                }
                j += 1;
            }
            if !found_new {
                proof {
                    assert forall|y: Seq<char>|
                        spec_missing_name(om.output, y) implies merged_name(oms, t as int, y) by {
                        assert(contains_str(views_of(names@), y));
                        let k = choose|k: int|
                            0 <= k < views_of(names@).len() && views_of(names@)[k] == y;
                        assert(merged_name(oms, t as int, views_of(names@)[k]));
                    }
                    if t > 0 {
                        assert(productive_attempt(oms, 0));
                        assert(!oms[0].success);
                    }
                    // under the repeated-failure premise the stall comes on
                    // the second iteration exactly
                    if outcomes@.len() >= 2 && (forall|t2: int|
                        0 <= t2 < outcomes@.len() ==> !(#[trigger] oms[t2]).success
                            && oms[t2].output == oms[0].output) && spec_is_package_related(
                        oms[0].output,
                    ) && (exists|y: Seq<char>| spec_missing_name(oms[0].output, y)) {
                        if t == 0 {
                            let y0 = choose|y: Seq<char>| spec_missing_name(oms[0].output, y);
                            assert(merged_name(oms, 0, y0));
                            assert(false);
                        }
                        if t >= 2 {
                            assert(productive_attempt(oms, 1));
                            let y1 = choose|y: Seq<char>|
                                spec_missing_name(oms[1].output, y) && !merged_name(oms, 1, y);
                            assert(oms[0].output == oms[1].output);
                            assert(merged_name(oms, 1, y1));
                            assert(false);
                        }
                    }
                }
                proof {
                    assert(((t as u32) + 1) as int == t + 1);
                    assert(names@.len() > 0);
                    assert(contains_str(views_of(names@), views_of(names@)[0]));
                    assert(spec_missing_name(om.output, views_of(names@)[0]));
                    assert forall|y: Seq<char>|
                        contains_str(views_of(missing@), y) == merged_name(oms, t + 1, y) by {
                        if contains_str(views_of(missing@), y) {
                            assert(merged_name(oms, t as int, y));
                            let u = choose|u: int|
                                0 <= u < t as int && !(#[trigger] oms[u]).success
                                    && spec_is_package_related(oms[u].output) && spec_missing_name(
                                    oms[u].output,
                                    y,
                                );
                            assert(0 <= u < t + 1 && !oms[u].success && spec_is_package_related(
                                oms[u].output,
                            ) && spec_missing_name(oms[u].output, y));
                            assert(merged_name(oms, t + 1, y));
                        }
                        if merged_name(oms, t + 1, y) {
                            let u = choose|u: int|
                                0 <= u < t + 1 && !(#[trigger] oms[u]).success
                                    && spec_is_package_related(oms[u].output) && spec_missing_name(
                                    oms[u].output,
                                    y,
                                );
                            if u == t as int {
                                assert(spec_missing_name(om.output, y));
                                assert(contains_str(views_of(names@), y));
                                let k2 = choose|k3: int|
                                    0 <= k3 < views_of(names@).len() && views_of(names@)[k3] == y;
                                assert(merged_name(oms, t as int, views_of(names@)[k2]));
                                assert(merged_name(oms, t as int, y));
                            } else {
                                assert(merged_name(oms, t as int, y));
                            }
                            assert(contains_str(views_of(missing@), y));
                        }
                    }
                }
                proof {
                    assert(oms.len() == outcomes@.len());
                    assert(!oms[t as int].success);
                    lemma_canonical_matches(om.output, views_of(names@));
                    assert forall|k: int|
                        0 <= k < views_of(names@).len() implies contains_str(
                        views_of(missing@),
                        #[trigger] views_of(names@)[k],
                    ) by {
                        assert(contains_str(views_of(names@), views_of(names@)[k]));
                        assert(spec_missing_name(om.output, views_of(names@)[k]));
                        assert(merged_name(oms, t as int, views_of(names@)[k]));
                    }
                    lemma_filter_new_all_old(views_of(names@), views_of(missing@));
                    assert(accumulated_names(oms, t + 1) =~= accumulated_names(oms, t as int));
                }
                return ResolutionReport {
                    status: ResolutionStatus::Stalled,
                    missing_packages: missing,
                    iterations: (t as u32) + 1,
                };
            }
            let ghost m0 = views_of(missing@);
            let ghost nv = views_of(names@);
            proof {
                assert(nv.skip(0) =~= nv);
                assert(views_of(missing@) + filter_new(nv.skip(0), m0) =~= m0 + filter_new(
                    nv,
                    m0,
                ));
            }
            let mut j2: usize = 0;
            while j2 < names.len()
                invariant
                    j2 <= names.len(),
                    oms == outcome_views(outcomes@),
                    t < outcomes@.len(),
                    om == oms[t as int],
                    m0 == accumulated_names(oms, t as int),
                    nv == views_of(names@),
                    strictly_sorted(nv),
                    forall|y: Seq<char>| contains_str(m0, y) <==> merged_name(oms, t as int, y),
                    views_of(missing@) + filter_new(nv.skip(j2 as int), m0) == m0 + filter_new(
                        nv,
                        m0,
                    ),
                    forall|y: Seq<char>|
                        contains_str(views_of(names@), y) <==> spec_missing_name(om.output, y),
                    forall|y: Seq<char>|
                        contains_str(views_of(missing@), y) <==> (merged_name(oms, t as int, y)
                            || (exists|k: int|
                            0 <= k < j2 && #[trigger] views_of(names@)[k] == y)),
                    forall|i: int, j3: int|
                        0 <= i < j3 < missing@.len() ==> views_of(missing@)[i] != views_of(
                            missing@,
                        )[j3],
                decreases names.len() - j2,
            {
                let ghost prev = views_of(missing@);
                let item = names[j2].clone();
                let ghost itemv = item@;
                proof {
                    assert(itemv == views_of(names@)[j2 as int]);
                }
                let already = vec_contains_str(&missing, item.as_str());
                if !already {
                    proof {
                        assert(views_of(missing@.push(item)) =~= prev.push(itemv));
                    }
                    missing.push(item);
                }
                proof {
                    let cur = views_of(missing@);
                    assert(already ==> cur == prev);
                    assert(!already ==> cur == prev.push(itemv));
                    assert forall|y: Seq<char>|
                        contains_str(cur, y) <==> (merged_name(oms, t as int, y) || (exists|k: int|
                            0 <= k < j2 + 1 && #[trigger] views_of(names@)[k] == y)) by {
                        if contains_str(cur, y) {
                            let w = choose|w: int| 0 <= w < cur.len() && cur[w] == y;
                            if !already && w == prev.len() {
                                assert(cur[w] == itemv);
                                assert(y == views_of(names@)[j2 as int]);
                                assert(exists|k: int|
                                    0 <= k < j2 + 1 && #[trigger] views_of(names@)[k] == y);
                            } else {
                                assert(prev[w] == y);
                                assert(contains_str(prev, y));
                                if !(merged_name(oms, t as int, y)) {
                                    let k = choose|k: int|
                                        0 <= k < j2 && #[trigger] views_of(names@)[k] == y;
                                    assert(exists|k2: int|
                                        0 <= k2 < j2 + 1 && #[trigger] views_of(names@)[k2] == y);
                                }
                            }
                        }
                        if merged_name(oms, t as int, y) {
                            assert(contains_str(prev, y));
                            let w = choose|w: int| 0 <= w < prev.len() && prev[w] == y;
                            assert(cur[w] == y);
                            assert(contains_str(cur, y));
                        }
                        if exists|k: int| 0 <= k < j2 + 1 && #[trigger] views_of(names@)[k] == y {
                            let k = choose|k: int|
                                0 <= k < j2 + 1 && #[trigger] views_of(names@)[k] == y;
                            if k < j2 {
                                assert(contains_str(prev, y));
                                let w = choose|w: int| 0 <= w < prev.len() && prev[w] == y;
                                assert(cur[w] == y);
                                assert(contains_str(cur, y));
                            } else {
                                assert(y == itemv);
                                if already {
                                    assert(contains_str(prev, itemv));
                                    let w = choose|w: int| 0 <= w < prev.len() && prev[w] == itemv;
                                    assert(cur[w] == y);
                                    assert(contains_str(cur, y));
                                } else {
                                    assert(cur[prev.len() as int] == itemv);
                                    assert(contains_str(cur, y));
                                }
                            }
                        }
                    }
                    // order bookkeeping: the appended name is exactly what
                    // the new-name filter keeps at this position
                    let sk = nv.skip(j2 as int);
                    assert(sk[0] == nv[j2 as int]);
                    assert(sk.drop_first() =~= nv.skip(j2 + 1));
                    assert(itemv == nv[j2 as int]);
                    assert(already == contains_str(m0, itemv)) by {
                        if already && !contains_str(m0, itemv) {
                            assert(merged_name(oms, t as int, itemv) || (exists|k: int|
                                0 <= k < j2 && #[trigger] views_of(names@)[k] == itemv));
                            let k = choose|k: int|
                                0 <= k < j2 && #[trigger] views_of(names@)[k] == itemv;
                            assert(crate::text::str_lt(nv[k], nv[j2 as int]));
                            assert(false);
                        }
                        if contains_str(m0, itemv) {
                            assert(merged_name(oms, t as int, itemv));
                            assert(contains_str(prev, itemv));
                        }
                    }
                    if !already {
                        assert(filter_new(sk, m0) == seq![itemv] + filter_new(
                            nv.skip(j2 + 1),
                            m0,
                        ));
                        assert(cur =~= prev.push(itemv));
                        assert(cur + filter_new(nv.skip(j2 + 1), m0) =~= prev + filter_new(
                            sk,
                            m0,
                        ));
                    } else {
                        assert(filter_new(sk, m0) == filter_new(nv.skip(j2 + 1), m0));
                        assert(cur =~= prev);
                    }
                }
                j2 += 1;
            }
            proof {
                assert forall|y: Seq<char>|
                    contains_str(views_of(missing@), y) <==> merged_name(oms, t + 1, y) by {
                    if contains_str(views_of(missing@), y) {
                        if merged_name(oms, t as int, y) {
                            let u = choose|u: int|
                                0 <= u < t && !(#[trigger] oms[u]).success
                                    && spec_is_package_related(oms[u].output) && spec_missing_name(
                                    oms[u].output,
                                    y,
                                );
                            assert(merged_name(oms, t + 1, y));
                        } else {
                            let k = choose|k: int|
                                0 <= k < views_of(names@).len() && #[trigger] views_of(names@)[k]
                                    == y;
                            assert(contains_str(views_of(names@), y));
                            assert(spec_missing_name(om.output, y));
                            assert(merged_name(oms, t + 1, y));
                        }
                    }
                    if merged_name(oms, t + 1, y) {
                        let u = choose|u: int|
                            0 <= u < t + 1 && !(#[trigger] oms[u]).success
                                && spec_is_package_related(oms[u].output) && spec_missing_name(
                                oms[u].output,
                                y,
                            );
                        if u < t {
                            assert(merged_name(oms, t as int, y));
                        } else {
                            assert(contains_str(views_of(names@), y));
                            let k = choose|k: int|
                                0 <= k < views_of(names@).len() && views_of(names@)[k] == y;
                            assert(0 <= k < j2 as int && views_of(names@)[k] == y);
                            assert(exists|k2: int|
                                0 <= k2 < j2 && #[trigger] views_of(names@)[k2] == y);
                        }
                        assert(merged_name(oms, t as int, y) || (exists|k2: int|
                            0 <= k2 < j2 && #[trigger] views_of(names@)[k2] == y));
                        assert(contains_str(views_of(missing@), y));
                    }
                }
                let ghost k0 = choose|k: int|
                    0 <= k < names@.len() && !merged_name(oms, t as int, #[trigger] views_of(
                        names@,
                    )[k]);
                assert(spec_missing_name(om.output, views_of(names@)[k0]) && !merged_name(
                    oms,
                    t as int,
                    views_of(names@)[k0],
                )) by {
                    assert(contains_str(views_of(names@), views_of(names@)[k0]));
                }
                assert(om == oms[t as int]);
                assert(exists|y: Seq<char>|
                    spec_missing_name(oms[t as int].output, y) && !merged_name(oms, t as int, y));
                assert forall|u: int| 0 <= u < t + 1 implies productive_attempt(oms, u) by {
                    if u == t as int {
                        assert(!oms[u].success);
                        assert(spec_is_package_related(oms[u].output));
                    }
                }
                // the accumulated list grew by exactly this attempt's new
                // names, in their ascending order
                assert(nv.skip(names@.len() as int) =~= Seq::<Seq<char>>::empty());
                assert(filter_new(Seq::<Seq<char>>::empty(), m0) == Seq::<Seq<char>>::empty());
                assert(views_of(missing@) + filter_new(nv.skip(names@.len() as int), m0)
                    =~= views_of(missing@));
                assert(views_of(missing@) =~= m0 + filter_new(nv, m0));
                lemma_canonical_matches(om.output, nv);
                assert(oms.len() == outcomes@.len());
                assert(!oms[t as int].success);
                assert(accumulated_names(oms, t + 1) == m0 + filter_new(nv, m0));
                assert(views_of(missing@) == accumulated_names(oms, t + 1));
            }
            t += 1;
        }
        proof {
            if t > 0 && outcomes@.len() >= 1 && oms[0].success {
                assert(!oms[0].success);
            }
            if outcomes@.len() >= 2 && (forall|t2: int|
                0 <= t2 < outcomes@.len() ==> !(#[trigger] oms[t2]).success && oms[t2].output
                    == oms[0].output) && spec_is_package_related(oms[0].output) && (
            exists|y: Seq<char>| spec_missing_name(oms[0].output, y)) {
                // the loop cannot run past the second iteration under this
                // premise, and it cannot exit before a terminal state
                assert(t == max || t == outcomes@.len());
                if t >= 2 {
                    assert(productive_attempt(oms, 1));
                    let y1 = choose|y: Seq<char>|
                        spec_missing_name(oms[1].output, y) && !merged_name(oms, 1, y);
                    assert(oms[0].output == oms[1].output);
                    assert(merged_name(oms, 1, y1));
                    assert(false);
                }
                assert(false);
            }
        }
        proof {
            assert((t as u32) as int == t as int);
        }
        ResolutionReport {
            status: ResolutionStatus::ExhaustedIterations,
            missing_packages: missing,
            iterations: t as u32,
        }
    }
}

} // verus!
