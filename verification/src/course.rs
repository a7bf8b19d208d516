//! The course of a solve session, as a function of its state. The state is
//! the log, the decided versions, the incompatibilities and the number of
//! times the session may still backtrack. Each step of the solver is stated
//! here as a function from state to state, and the solver's own functions
//! are proved to follow it: what a session returns is determined by what it
//! started from.

use crate::markers::TargetEnvironment;
use crate::pep440::{ParseError, VersionView};
use crate::resolver::{release_keys, PyPIPackageInfo};
use crate::solver::{
    backtrack_len, best_version_spec, causal_chain, count_decisions, decides_after,
    dependencies_spec, dependency_incompatibilities, derived, is_conflict, is_unit_at, negated,
    no_version_incompatibility, requirement_texts, AssignmentView, Decided, DependencyView,
    IncompatibilityView,
};
use vstd::prelude::*;

verus! {

/// The state of a session.
pub struct State {
    pub log: Seq<AssignmentView>,
    pub decided: Decided,
    pub incs: Seq<IncompatibilityView>,
    pub budget: nat,
}

/// A table without decided versions.
pub open spec fn nothing_decided() -> Decided {
    |name: Seq<char>| None::<VersionView>
}

/// The decided versions after `package` was decided as `version`.
pub open spec fn with_decision(decided: Decided, package: Seq<char>, version: VersionView) -> Decided {
    |name: Seq<char>|
        if name == package {
            Some(version)
        } else {
            decided(name)
        }
}

/// How much of the log stays when its last decision leaves.
pub open spec fn retreat_len(log: Seq<AssignmentView>) -> int {
    backtrack_len(log, (count_decisions(log) - 1) as nat) as int
}

/// The decided versions after the last decision of the log has left.
pub open spec fn without_last_decision(log: Seq<AssignmentView>, decided: Decided) -> Decided {
    |name: Seq<char>|
        if decides_after(log, retreat_len(log), name) {
            None
        } else {
            decided(name)
        }
}

/// The state after one backtracking step: the last decision and what
/// followed it have left, and one step is spent.
pub open spec fn retreated(s: State) -> State {
    State {
        log: s.log.take(retreat_len(s.log)),
        decided: without_last_decision(s.log, s.decided),
        incs: s.incs,
        budget: (s.budget - 1) as nat,
    }
}

/// Whether a conflict in this state is final: no decision beyond the first
/// remains, or no step is left.
pub open spec fn cornered(s: State) -> bool {
    count_decisions(s.log) <= 1 || s.budget == 0
}

/// The position of the undecided term of a unit incompatibility.
pub open spec fn unit_index(decided: Decided, inc: IncompatibilityView) -> Option<int> {
    if exists|k: int| is_unit_at(decided, inc, k) {
        Some(choose|k: int| is_unit_at(decided, inc, k))
    } else {
        None
    }
}

/// The derivation that the incompatibility at `i` forces at `level`, if it
/// is a unit and the log does not hold that derivation yet.
pub open spec fn forced_entry(
    log: Seq<AssignmentView>,
    incs: Seq<IncompatibilityView>,
    decided: Decided,
    level: usize,
    i: int,
) -> Option<AssignmentView> {
    match unit_index(decided, incs[i]) {
        Some(k) => if derived(log, negated(incs[i].terms[k])) {
            None
        } else {
            Some(
                AssignmentView::Derivation {
                    term: negated(incs[i].terms[k]),
                    cause: i as usize,
                    decision_level: level,
                },
            )
        },
        None => None,
    }
}

/// One pass of unit propagation from the incompatibility at `i` on: the
/// log after it, and the first conflict that it met.
pub open spec fn propagated(
    log: Seq<AssignmentView>,
    incs: Seq<IncompatibilityView>,
    decided: Decided,
    level: usize,
    i: int,
) -> (Seq<AssignmentView>, Option<int>)
    decreases incs.len() - i,
{
    if i < 0 || i >= incs.len() {
        (log, None)
    } else if is_conflict(decided, incs[i]) {
        (log, Some(i))
    } else {
        match forced_entry(log, incs, decided, level, i) {
            Some(entry) => propagated(log.push(entry), incs, decided, level, i + 1),
            None => propagated(log, incs, decided, level, i + 1),
        }
    }
}

/// The state after one pass of unit propagation, and the first conflict
/// that the pass met.
pub open spec fn after_pass(s: State) -> (State, Option<int>) {
    let (log, conflict) = propagated(
        s.log,
        s.incs,
        s.decided,
        count_decisions(s.log) as usize,
        0,
    );
    (State { log, decided: s.decided, incs: s.incs, budget: s.budget }, conflict)
}

/// The package of the first entry from `i` on that calls for a decision: a
/// positive derivation about a package without a decided version.
pub open spec fn first_candidate(log: Seq<AssignmentView>, decided: Decided, i: int) -> Option<
    Seq<char>,
>
    decreases log.len() - i,
{
    if i < 0 || i >= log.len() {
        None
    } else if log[i] is Derivation && log[i]->term.positive && decided(log[i]->term.package) is None {
        Some(log[i]->term.package)
    } else {
        first_candidate(log, decided, i + 1)
    }
}

/// How a run of the solver without new metadata ends.
pub enum Outcome {
    /// The metadata of this package is needed.
    Fetch(Seq<char>),
    /// Every package that needs a version has one.
    Solved,
    /// The incompatibility at this position is a conflict that is final.
    Failed(int),
}

/// The run of the solver until it needs metadata or ends: a pass of unit
/// propagation; after a conflict one backtracking step and the next pass,
/// unless the conflict is final; after a pass without conflict the first
/// package that calls for a decision, or the end.
pub open spec fn advanced(s: State) -> (State, Outcome)
    decreases s.budget,
{
    let (t, conflict) = after_pass(s);
    match conflict {
        Some(i) => if cornered(t) {
            (t, Outcome::Failed(i))
        } else {
            advanced(retreated(t))
        },
        None => match first_candidate(t.log, t.decided, 0) {
            Some(name) => (t, Outcome::Fetch(name)),
            None => (t, Outcome::Solved),
        },
    }
}

/// How a session ends.
pub enum Ending {
    /// Every package that needs a version has one: the decided versions.
    Solved(Decided),
    /// A requirement could not be read.
    Unreadable(ParseError),
    /// The metadata does not know this package.
    NotFound(Seq<char>),
    /// The conflict that no backtracking answers, with its causal chain.
    Unsolvable(IncompatibilityView, Seq<IncompatibilityView>),
    /// The session decided as many versions as it was allowed to.
    OutOfBudget,
}

/// The requirements that the metadata of a package states, for the
/// environment.
pub open spec fn stated_requirements(info: PyPIPackageInfo, env: TargetEnvironment) -> Result<
    Seq<DependencyView>,
    ParseError,
> {
    dependencies_spec(
        requirement_texts(info),
        env.python_version@,
        env.sys_platform@,
        env.platform_system@,
    )
}

/// The state after the metadata of `package`, which has no decided version,
/// was taken in; or how the session ends on it. The highest version that
/// the metadata lists is decided, and the requirements of the package
/// become incompatibilities. Where it lists no version, that is a conflict.
pub open spec fn supplied(s: State, env: TargetEnvironment, package: Seq<char>, info: PyPIPackageInfo) -> Result<
    State,
    Ending,
> {
    match best_version_spec(release_keys(info)) {
        Some(v) => match stated_requirements(info, env) {
            Ok(deps) => Ok(
                State {
                    log: s.log.push(
                        AssignmentView::Decision {
                            package,
                            version: v,
                            decision_level: count_decisions(s.log) as usize,
                        },
                    ),
                    decided: with_decision(s.decided, package, v),
                    incs: s.incs + dependency_incompatibilities(package, v, deps, false),
                    budget: s.budget,
                },
            ),
            Err(e) => Err(Ending::Unreadable(e)),
        },
        None => if cornered(s) {
            Err(
                Ending::Unsolvable(
                    no_version_incompatibility(package),
                    causal_chain(s.log, s.incs, no_version_incompatibility(package)),
                ),
            )
        } else {
            Ok(
                retreated(
                    State {
                        log: s.log,
                        decided: s.decided,
                        incs: s.incs.push(no_version_incompatibility(package)),
                        budget: s.budget,
                    },
                ),
            )
        },
    }
}

/// The first entry of the table of metadata from `i` on for the package
/// `name`.
pub open spec fn entry_from(registry: Seq<PyPIPackageInfo>, name: Seq<char>, i: int) -> Option<
    PyPIPackageInfo,
>
    decreases registry.len() - i,
{
    if i < 0 || i >= registry.len() {
        None
    } else if registry[i].info.name@ == name {
        Some(registry[i])
    } else {
        entry_from(registry, name, i + 1)
    }
}

/// The state after the metadata that the table holds for `package` was
/// taken in, or how the session ends on it.
pub open spec fn fed(s: State, registry: Seq<PyPIPackageInfo>, env: TargetEnvironment, package: Seq<char>) -> Result<
    State,
    Ending,
> {
    match entry_from(registry, package, 0) {
        None => Err(Ending::NotFound(package)),
        Some(info) => supplied(s, env, package, info),
    }
}

/// The session from the state `s` to its end, with the metadata of
/// `registry`, deciding `steps` versions at most.
pub open spec fn ran(s: State, registry: Seq<PyPIPackageInfo>, env: TargetEnvironment, steps: nat) -> Ending
    decreases steps,
{
    let (t, outcome) = advanced(s);
    match outcome {
        Outcome::Solved => Ending::Solved(t.decided),
        Outcome::Failed(i) => Ending::Unsolvable(t.incs[i], causal_chain(t.log, t.incs, t.incs[i])),
        Outcome::Fetch(name) => if steps == 0 {
            Ending::OutOfBudget
        } else {
            match fed(t, registry, env, name) {
                Ok(u) => ran(u, registry, env, (steps - 1) as nat),
                Err(e) => e,
            }
        },
    }
}

/// The state after the root package was decided, which opens the session.
pub open spec fn opened(s: State, root: Seq<char>, version: VersionView) -> State {
    State {
        log: s.log.push(AssignmentView::Decision { package: root, version, decision_level: 0 }),
        decided: with_decision(s.decided, root, version),
        incs: s.incs,
        budget: s.budget,
    }
}

/// The state in which a session for the root package opens: the root is
/// decided, and its requirements are the incompatibilities.
pub open spec fn opening(
    root: Seq<char>,
    version: VersionView,
    deps: Seq<DependencyView>,
    budget: nat,
) -> State {
    State {
        log: seq![AssignmentView::Decision { package: root, version, decision_level: 0 }],
        decided: with_decision(nothing_decided(), root, version),
        incs: dependency_incompatibilities(root, version, deps, true),
        budget,
    }
}

/// How the session for the root package with the requirements
/// `requirements` ends.
pub open spec fn solved(
    root: Seq<char>,
    version: VersionView,
    requirements: Seq<Seq<char>>,
    registry: Seq<PyPIPackageInfo>,
    env: TargetEnvironment,
    budget: nat,
    steps: nat,
) -> Ending {
    match dependencies_spec(
        requirements,
        env.python_version@,
        env.sys_platform@,
        env.platform_system@,
    ) {
        Err(e) => Ending::Unreadable(e),
        Ok(deps) => ran(opening(root, version, deps, budget), registry, env, steps),
    }
}

} // verus!
