//! The data of the solver: terms, incompatibilities, assignments and the
//! partial solution with its log of assignments and its table of decided
//! versions.

use crate::constraint::{allows_spec, describe_spec, Constraint, ConstraintView};
use crate::course::{
    advanced, after_pass, entry_from, fed, first_candidate, opened, opening,
    propagated,
    ran, retreated, solved, stated_requirements, supplied, unit_index, with_decision,
    without_last_decision, Ending,
    Outcome, State,
};
use crate::markers::{
    constraint_spec, evaluate_spec, parse_requirement, requirement_spec, TargetEnvironment,
};
use crate::pep440::{
    lemma_version_order_antisymmetric, lemma_version_order_transitive, parse_spec, version_order,
    ParseError, Version, VersionView,
};
use crate::resolver::{release_keys, PyPIPackageInfo};
use crate::text::{chars_of, join, push_joined, push_str, rows, same_text, string_of, texts};
use vstd::prelude::*;

verus! {

/// The name of a package.
pub type PackageName = String;

/// A statement about the version chosen for a package: it does (`positive`)
/// or does not satisfy the constraint.
#[derive(Debug)]
pub struct Term {
    pub package: PackageName,
    pub constraint: Constraint,
    pub positive: bool,
}

/// The mathematical value of a [`Term`].
pub struct TermView {
    pub package: Seq<char>,
    pub constraint: ConstraintView,
    pub positive: bool,
}

/// How the version sets of two terms relate.
#[derive(Debug, Clone, Copy, PartialEq, Eq, Structural)]
pub enum SetRelation {
    Subset,
    Disjoint,
    Overlapping,
}

/// Why an incompatibility holds.
#[derive(Debug)]
pub enum IncompatibilityCause {
    /// The first package depends on the second.
    Dependency(PackageName, PackageName),
    /// A requirement of the root package.
    Root,
    /// No version matches a constraint.
    NoVersion,
    /// Derived from a conflict.
    Conflict,
}

/// The mathematical value of an [`IncompatibilityCause`].
pub enum CauseView {
    Dependency(Seq<char>, Seq<char>),
    Root,
    NoVersion,
    Conflict,
}

/// A set of terms that cannot all hold.
#[derive(Debug)]
pub struct Incompatibility {
    pub terms: Vec<Term>,
    pub cause: IncompatibilityCause,
}

/// The mathematical value of an [`Incompatibility`].
pub struct IncompatibilityView {
    pub terms: Seq<TermView>,
    pub cause: CauseView,
}

/// One entry of the solver's log. `decision_level` is the number of
/// decisions made before the entry. `cause` is the position of the
/// incompatibility that forced a derivation.
#[derive(Debug)]
pub enum Assignment {
    Decision { package: PackageName, version: Version, decision_level: usize },
    Derivation { term: Term, cause: usize, decision_level: usize },
}

/// The mathematical value of an [`Assignment`].
pub enum AssignmentView {
    Decision { package: Seq<char>, version: VersionView, decision_level: usize },
    Derivation { term: TermView, cause: usize, decision_level: usize },
}

/// The log of assignments and the table of decided versions.
#[derive(Debug)]
pub struct PartialSolution {
    pub assignments: Vec<Assignment>,
    pub decisions: Vec<(PackageName, Version)>,
}

impl View for Term {
    type V = TermView;

    open spec fn view(&self) -> TermView {
        TermView { package: self.package@, constraint: self.constraint@, positive: self.positive }
    }
}

impl View for IncompatibilityCause {
    type V = CauseView;

    open spec fn view(&self) -> CauseView {
        match self {
            IncompatibilityCause::Dependency(a, b) => CauseView::Dependency(a@, b@),
            IncompatibilityCause::Root => CauseView::Root,
            IncompatibilityCause::NoVersion => CauseView::NoVersion,
            IncompatibilityCause::Conflict => CauseView::Conflict,
        }
    }
}

/// The values of a sequence of terms.
pub open spec fn term_views(ts: Seq<Term>) -> Seq<TermView> {
    Seq::new(ts.len(), |i: int| ts[i]@)
}

impl View for Incompatibility {
    type V = IncompatibilityView;

    open spec fn view(&self) -> IncompatibilityView {
        IncompatibilityView { terms: term_views(self.terms@), cause: self.cause@ }
    }
}

impl View for Assignment {
    type V = AssignmentView;

    open spec fn view(&self) -> AssignmentView {
        match self {
            Assignment::Decision { package, version, decision_level } => AssignmentView::Decision {
                package: package@,
                version: version@,
                decision_level: *decision_level,
            },
            Assignment::Derivation { term, cause, decision_level } => AssignmentView::Derivation {
                term: term@,
                cause: *cause,
                decision_level: *decision_level,
            },
        }
    }
}

/// The values of a sequence of assignments.
pub open spec fn log_of(a: Seq<Assignment>) -> Seq<AssignmentView> {
    Seq::new(a.len(), |i: int| a[i]@)
}

/// The values of a sequence of incompatibilities.
pub open spec fn incompatibility_views(v: Seq<Incompatibility>) -> Seq<IncompatibilityView> {
    Seq::new(v.len(), |i: int| v[i]@)
}

/// The version that the table `d` holds for `name`, looked up from position
/// `i` on: the first entry of that name decides.
pub open spec fn lookup_from(d: Seq<(PackageName, Version)>, name: Seq<char>, i: int) -> Option<
    VersionView,
>
    decreases d.len() - i,
{
    if 0 <= i < d.len() {
        if d[i].0@ == name {
            Some(d[i].1@)
        } else {
            lookup_from(d, name, i + 1)
        }
    } else {
        None
    }
}

/// The version that the table `d` holds for `name`.
pub open spec fn lookup(d: Seq<(PackageName, Version)>, name: Seq<char>) -> Option<VersionView> {
    lookup_from(d, name, 0)
}

/// Whether no name occurs twice in the table.
pub open spec fn distinct_names(d: Seq<(PackageName, Version)>) -> bool {
    forall|i: int, j: int| 0 <= i < j < d.len() ==> (#[trigger] d[i]).0@ != (#[trigger] d[j]).0@
}

/// The table of decided versions as a function of the package name.
pub type Decided = spec_fn(Seq<char>) -> Option<VersionView>;

/// The number of decisions in a log.
pub open spec fn count_decisions(log: Seq<AssignmentView>) -> nat
    decreases log.len(),
{
    if log.len() == 0 {
        0
    } else if log.last() is Decision {
        count_decisions(log.drop_last()) + 1
    } else {
        count_decisions(log.drop_last())
    }
}

/// How much of a log stays when it is cut back to `level` decisions: entries
/// leave from the end while more than `level` decisions remain.
pub open spec fn backtrack_len(log: Seq<AssignmentView>, level: nat) -> nat
    decreases log.len(),
{
    if log.len() > 0 && count_decisions(log) > level {
        backtrack_len(log.drop_last(), level)
    } else {
        log.len()
    }
}

/// Whether the log decides `name` at or after position `from`.
pub open spec fn decides_after(log: Seq<AssignmentView>, from: int, name: Seq<char>) -> bool {
    exists|i: int|
        from <= i < log.len() && (#[trigger] log[i]) is Decision && log[i]->package == name
}

/// Whether the decided versions make the term hold.
pub open spec fn term_satisfied(decided: Decided, t: TermView) -> bool {
    match decided(t.package) {
        Some(v) => allows_spec(t.constraint, v) == t.positive,
        None => false,
    }
}

/// Whether the decided versions make the term fail.
pub open spec fn term_contradicted(decided: Decided, t: TermView) -> bool {
    match decided(t.package) {
        Some(v) => allows_spec(t.constraint, v) != t.positive,
        None => false,
    }
}

/// The term with the opposite polarity.
pub open spec fn negated(t: TermView) -> TermView {
    TermView { package: t.package, constraint: t.constraint, positive: !t.positive }
}

impl Clone for Term {
    fn clone(&self) -> (r: Self)
        ensures
            r@ == self@,
    {
        Term {
            package: self.package.clone(),
            constraint: self.constraint.clone(),
            positive: self.positive,
        }
    }
}

impl Term {
    /// The positive term: the package's version satisfies the constraint.
    pub fn new(package: PackageName, constraint: Constraint) -> (r: Term)
        ensures
            r@ == (TermView { package: package@, constraint: constraint@, positive: true }),
    {
        Term { package, constraint, positive: true }
    }

    /// The same term with the opposite polarity.
    pub fn negate(&self) -> (r: Term)
        ensures
            r@ == negated(self@),
    {
        Term {
            package: self.package.clone(),
            constraint: self.constraint.clone(),
            positive: !self.positive,
        }
    }

    /// How this term relates to another: terms about different packages are
    /// disjoint, terms about one package are taken to overlap.
    pub fn relation(&self, other: &Term) -> (r: SetRelation)
        ensures
            r == if self@.package == other@.package {
                SetRelation::Overlapping
            } else {
                SetRelation::Disjoint
            },
    {
        if !same_text(self.package.as_str(), other.package.as_str()) {
            return SetRelation::Disjoint;
        }
        SetRelation::Overlapping
    }

    /// Whether both terms have the same package, constraint and polarity.
    pub fn same(&self, other: &Term) -> (r: bool)
        ensures
            r == (self@ == other@),
    {
        self.positive == other.positive && same_text(self.package.as_str(), other.package.as_str())
            && self.constraint.same(&other.constraint)
    }
}

impl Clone for IncompatibilityCause {
    fn clone(&self) -> (r: Self)
        ensures
            r@ == self@,
    {
        match self {
            IncompatibilityCause::Dependency(a, b) => IncompatibilityCause::Dependency(
                a.clone(),
                b.clone(),
            ),
            IncompatibilityCause::Root => IncompatibilityCause::Root,
            IncompatibilityCause::NoVersion => IncompatibilityCause::NoVersion,
            IncompatibilityCause::Conflict => IncompatibilityCause::Conflict,
        }
    }
}

impl Clone for Incompatibility {
    fn clone(&self) -> (r: Self)
        ensures
            r@ == self@,
    {
        let mut terms: Vec<Term> = Vec::new();
        let mut i: usize = 0;
        while i < self.terms.len()
            invariant
                i <= self.terms.len(),
                terms.len() == i,
                forall|j: int| 0 <= j < i ==> terms[j]@ == self.terms[j]@,
            decreases self.terms.len() - i,
        {
            terms.push(self.terms[i].clone());
            i += 1;
        }
        assert(term_views(terms@) =~= term_views(self.terms@));
        Incompatibility { terms, cause: self.cause.clone() }
    }
}

impl PartialSolution {
    /// The log of assignments.
    pub open spec fn log(&self) -> Seq<AssignmentView> {
        log_of(self.assignments@)
    }

    /// The decided version of a package, if it has one.
    pub open spec fn decided(&self) -> Decided {
        |name: Seq<char>| lookup(self.decisions@, name)
    }

    /// Whether each package has one entry at most in the table of decided
    /// versions.
    pub open spec fn distinct(&self) -> bool {
        distinct_names(self.decisions@)
    }

    /// The solution without any assignment.
    pub fn new() -> (r: PartialSolution)
        ensures
            r.distinct(),
            r.log() == Seq::<AssignmentView>::empty(),
            forall|name: Seq<char>| (#[trigger] (r.decided())(name)) is None,
    {
        let r = PartialSolution { assignments: Vec::new(), decisions: Vec::new() };
        assert(r.log() =~= Seq::<AssignmentView>::empty());
        r
    }

    /// The decided version of `package`, if it has one.
    pub fn get_decision(&self, package: &str) -> (r: Option<&Version>)
        ensures
            match r {
                Some(v) => (self.decided())(package@) == Some(v@),
                None => (self.decided())(package@) is None,
            },
    {
        let mut i: usize = 0;
        while i < self.decisions.len()
            invariant
                i <= self.decisions.len(),
                lookup_from(self.decisions@, package@, i as int) == lookup(
                    self.decisions@,
                    package@,
                ),
            decreases self.decisions.len() - i,
        {
            if same_text(self.decisions[i].0.as_str(), package) {
                return Some(&self.decisions[i].1);
            }
            i += 1;
        }
        None
    }

    /// The number of decisions in the log.
    pub fn decision_level(&self) -> (r: usize)
        ensures
            r == count_decisions(self.log()),
    {
        let mut n: usize = 0;
        let mut i: usize = 0;
        while i < self.assignments.len()
            invariant
                i <= self.assignments.len(),
                n <= i,
                n == count_decisions(self.log().take(i as int)),
            decreases self.assignments.len() - i,
        {
            proof {
                let next = self.log().take(i + 1);
                assert(next.drop_last() == self.log().take(i as int));
                assert(next.last() == self.assignments[i as int]@);
            }
            match &self.assignments[i] {
                Assignment::Decision { .. } => {
                    n += 1;
                },
                Assignment::Derivation { .. } => {},
            }
            i += 1;
        }
        assert(self.log().take(self.assignments.len() as int) == self.log());
        n
    }

    /// Whether the decided versions make `term` hold.
    pub fn satisfies(&self, term: &Term) -> (r: bool)
        ensures
            r == term_satisfied(self.decided(), term@),
    {
        match self.get_decision(term.package.as_str()) {
            Some(version) => {
                let allows = term.constraint.allows(version);
                if term.positive {
                    allows
                } else {
                    !allows
                }
            },
            None => false,
        }
    }

    /// Whether the decided versions make `term` fail.
    pub fn unsatisfies(&self, term: &Term) -> (r: bool)
        ensures
            r == term_contradicted(self.decided(), term@),
    {
        match self.get_decision(term.package.as_str()) {
            Some(version) => {
                let allows = term.constraint.allows(version);
                if term.positive {
                    !allows
                } else {
                    allows
                }
            },
            None => false,
        }
    }
}

// ---------------------------------------------------------------------------
// The table of decisions
// ---------------------------------------------------------------------------

/// Looking up from a later position skips only entries of other names.
proof fn lemma_lookup_skip(d: Seq<(PackageName, Version)>, name: Seq<char>, i: int, j: int)
    requires
        0 <= i <= j <= d.len(),
        forall|k: int| i <= k < j ==> (#[trigger] d[k]).0@ != name,
    ensures
        lookup_from(d, name, i) == lookup_from(d, name, j),
    decreases j - i,
{
    if i < j {
        lemma_lookup_skip(d, name, i + 1, j);
    }
}

/// Replacing the entry at `i` changes what is found from `j` on for the new
/// entry's name only, given that the old entry had that name too.
proof fn lemma_lookup_update(
    d: Seq<(PackageName, Version)>,
    i: int,
    e: (PackageName, Version),
    x: Seq<char>,
    j: int,
)
    requires
        0 <= i < d.len(),
        0 <= j <= d.len(),
        d[i].0@ == e.0@,
        x != e.0@,
    ensures
        lookup_from(d.update(i, e), x, j) == lookup_from(d, x, j),
    decreases d.len() - j,
{
    if j < d.len() {
        lemma_lookup_update(d, i, e, x, j + 1);
    }
}

/// Appending an entry is seen only where nothing was found before.
proof fn lemma_lookup_push(
    d: Seq<(PackageName, Version)>,
    e: (PackageName, Version),
    x: Seq<char>,
    j: int,
)
    requires
        0 <= j <= d.len(),
    ensures
        lookup_from(d.push(e), x, j) == (if lookup_from(d, x, j) is Some {
            lookup_from(d, x, j)
        } else if e.0@ == x {
            Some(e.1@)
        } else {
            None
        }),
    decreases d.len() - j,
{
    if j < d.len() {
        lemma_lookup_push(d, e, x, j + 1);
    } else {
        assert(lookup_from(d.push(e), x, j + 1) is None);
    }
}

/// Past a removed entry the table reads as before, one position on.
proof fn lemma_lookup_remove_tail(d: Seq<(PackageName, Version)>, i: int, x: Seq<char>, j: int)
    requires
        0 <= i < d.len(),
        i <= j <= d.len() - 1,
    ensures
        lookup_from(d.remove(i), x, j) == lookup_from(d, x, j + 1),
    decreases d.len() - j,
{
    if j < d.len() - 1 {
        lemma_lookup_remove_tail(d, i, x, j + 1);
    }
}

/// Removing an entry of another name changes nothing for `x`.
proof fn lemma_lookup_remove(d: Seq<(PackageName, Version)>, i: int, x: Seq<char>, j: int)
    requires
        0 <= i < d.len(),
        0 <= j <= i,
        d[i].0@ != x,
    ensures
        lookup_from(d.remove(i), x, j) == lookup_from(d, x, j),
    decreases i - j,
{
    if j < i {
        lemma_lookup_remove(d, i, x, j + 1);
    } else {
        lemma_lookup_remove_tail(d, i, x, i);
    }
}

/// The position of the first entry named `name`.
fn position_of(d: &Vec<(PackageName, Version)>, name: &str) -> (r: Option<usize>)
    ensures
        match r {
            Some(i) => i < d.len() && d[i as int].0@ == name@ && forall|k: int|
                0 <= k < i ==> (#[trigger] d[k]).0@ != name@,
            None => forall|k: int| 0 <= k < d.len() ==> (#[trigger] d[k]).0@ != name@,
        },
{
    let mut i: usize = 0;
    while i < d.len()
        invariant
            i <= d.len(),
            forall|k: int| 0 <= k < i ==> (#[trigger] d[k]).0@ != name@,
        decreases d.len() - i,
    {
        if same_text(d[i].0.as_str(), name) {
            return Some(i);
        }
        i += 1;
    }
    None
}

/// Takes every entry named `name` out of the table.
fn remove_named(d: &mut Vec<(PackageName, Version)>, name: &str)
    ensures
        distinct_names(old(d)@) ==> distinct_names(final(d)@),
        forall|x: Seq<char>|
            #[trigger] lookup(final(d)@, x) == (if x == name@ {
                None
            } else {
                lookup(old(d)@, x)
            }),
{
    loop
        invariant
            distinct_names(old(d)@) ==> distinct_names(d@),
            forall|x: Seq<char>| x != name@ ==> #[trigger] lookup(d@, x) == lookup(old(d)@, x),
        decreases d.len(),
    {
        match position_of(d, name) {
            Some(i) => {
                let ghost before = d@;
                d.remove(i);
                proof {
                    assert(d@ == before.remove(i as int));
                    if distinct_names(before) {
                        assert forall|a: int, b: int| 0 <= a < b < d@.len() implies (
                        #[trigger] d@[a]).0@ != (#[trigger] d@[b]).0@ by {
                            let a0 = if a < i { a } else { a + 1 };
                            let b0 = if b < i { b } else { b + 1 };
                            assert(d@[a] == before[a0]);
                            assert(d@[b] == before[b0]);
                        }
                    }
                    assert forall|x: Seq<char>| x != name@ implies #[trigger] lookup(d@, x)
                        == lookup(old(d)@, x) by {
                        lemma_lookup_remove(before, i as int, x, 0);
                        assert(lookup(before, x) == lookup(old(d)@, x));
                    }
                }
            },
            None => {
                proof {
                    lemma_lookup_skip(d@, name@, 0, d@.len() as int);
                }
                return ;
            },
        }
    }
}

/// Sets the entry named as `e` to `e`: the first such entry is replaced, or
/// `e` is appended.
fn put_entry(d: &mut Vec<(PackageName, Version)>, e: (PackageName, Version))
    ensures
        distinct_names(old(d)@) ==> distinct_names(final(d)@),
        forall|x: Seq<char>|
            #[trigger] lookup(final(d)@, x) == (if x == e.0@ {
                Some(e.1@)
            } else {
                lookup(old(d)@, x)
            }),
{
    let ghost name = e.0@;
    let ghost value = e.1@;
    match position_of(d, e.0.as_str()) {
        Some(i) => {
            let ghost before = d@;
            d.remove(i);
            d.insert(i, e);
            proof {
                assert(d@ =~= before.update(i as int, e));
                if distinct_names(before) {
                    assert forall|a: int, b: int| 0 <= a < b < d@.len() implies (#[trigger] d@[a]).0@
                        != (#[trigger] d@[b]).0@ by {
                        assert(d@[a].0@ == before[a].0@);
                        assert(d@[b].0@ == before[b].0@);
                    }
                }
                lemma_lookup_skip(d@, name, 0, i as int);
                assert forall|x: Seq<char>| x != name implies #[trigger] lookup(d@, x) == lookup(
                    before,
                    x,
                ) by {
                    lemma_lookup_update(before, i as int, e, x, 0);
                }
            }
        },
        None => {
            let ghost before = d@;
            d.push(e);
            proof {
                if distinct_names(before) {
                    assert forall|a: int, b: int| 0 <= a < b < d@.len() implies (#[trigger] d@[a]).0@
                        != (#[trigger] d@[b]).0@ by {
                        assert(d@[a] == before[a]);
                        if b < before.len() {
                            assert(d@[b] == before[b]);
                        }
                    }
                }
                lemma_lookup_skip(before, name, 0, before.len() as int);
                assert forall|x: Seq<char>|
                    #[trigger] lookup(d@, x) == (if x == name {
                        Some(value)
                    } else {
                        lookup(before, x)
                    }) by {
                    lemma_lookup_push(before, e, x, 0);
                    if x != name && lookup(before, x) is None {
                    }
                }
            }
        },
    }
}

/// Cutting a log back keeps a prefix of it.
pub proof fn lemma_backtrack_len(log: Seq<AssignmentView>, level: nat)
    ensures
        backtrack_len(log, level) <= log.len(),
        count_decisions(log.take(backtrack_len(log, level) as int)) <= level || backtrack_len(
            log,
            level,
        ) == 0,
    decreases log.len(),
{
    if log.len() > 0 && count_decisions(log) > level {
        lemma_backtrack_len(log.drop_last(), level);
        let k = backtrack_len(log.drop_last(), level) as int;
        assert(log.drop_last().take(k) == log.take(k));
    } else {
        assert(log.take(log.len() as int) == log);
    }
}

impl PartialSolution {
    /// Appends an assignment to the log. A decision also enters the table of
    /// decided versions, in place of an earlier one for the same package.
    pub fn assign(&mut self, assignment: Assignment)
        ensures
            old(self).distinct() ==> final(self).distinct(),
            final(self).log() == old(self).log().push(assignment@),
            forall|name: Seq<char>|
                #[trigger] (final(self).decided())(name) == (match assignment@ {
                    AssignmentView::Decision { package, version, .. } => if name == package {
                        Some(version)
                    } else {
                        (old(self).decided())(name)
                    },
                    AssignmentView::Derivation { .. } => (old(self).decided())(name),
                }),
            assignment is Derivation ==> final(self).decisions == old(self).decisions,
    {
        match &assignment {
            Assignment::Decision { package, version, .. } => {
                put_entry(&mut self.decisions, (package.clone(), version.clone()));
            },
            Assignment::Derivation { .. } => {},
        }
        self.assignments.push(assignment);
        assert(self.log() =~= old(self).log().push(assignment@));
    }

    /// Cuts the log back to `decision_level` decisions: entries leave from
    /// the end while more decisions than that remain, and each decision that
    /// leaves also leaves the table of decided versions.
    pub fn backtrack(&mut self, decision_level: usize)
        ensures
            old(self).distinct() ==> final(self).distinct(),
            final(self).log() == old(self).log().take(
                backtrack_len(old(self).log(), decision_level as nat) as int,
            ),
            forall|name: Seq<char>|
                #[trigger] (final(self).decided())(name) == (if decides_after(
                    old(self).log(),
                    backtrack_len(old(self).log(), decision_level as nat) as int,
                    name,
                ) {
                    None
                } else {
                    (old(self).decided())(name)
                }),
    {
        let mut count = self.decision_level();
        let ghost full = self.log();
        assert(full.take(full.len() as int) == full);
        while count > decision_level
            invariant
                old(self).distinct() ==> self.distinct(),
                full == old(self).log(),
                self.assignments.len() <= full.len(),
                self.log() == full.take(self.assignments.len() as int),
                count == count_decisions(self.log()),
                backtrack_len(self.log(), decision_level as nat) == backtrack_len(
                    full,
                    decision_level as nat,
                ),
                forall|name: Seq<char>|
                    #[trigger] lookup(self.decisions@, name) == (if decides_after(
                        full,
                        self.assignments.len() as int,
                        name,
                    ) {
                        None
                    } else {
                        lookup(old(self).decisions@, name)
                    }),
            decreases self.assignments.len(),
        {
            let ghost before = self.log();
            let ghost table = self.decisions@;
            let ghost n = self.assignments.len() as int;
            assert(n > 0) by {
                if n == 0 {
                    assert(count_decisions(before) == 0);
                }
            }
            let last = self.assignments.pop();
            proof {
                assert(self.log() =~= before.drop_last());
                assert(before.drop_last() =~= full.take(n - 1));
                assert(before.last() == full[n - 1]);
            }
            match last {
                Some(Assignment::Decision { package, .. }) => {
                    remove_named(&mut self.decisions, package.as_str());
                    count -= 1;
                    proof {
                        assert(full[n - 1] is Decision && full[n - 1]->package == package@);
                        assert forall|name: Seq<char>|
                            #[trigger] lookup(self.decisions@, name) == (if decides_after(
                                full,
                                n - 1,
                                name,
                            ) {
                                None
                            } else {
                                lookup(old(self).decisions@, name)
                            }) by {
                            if name == package@ {
                                assert(decides_after(full, n - 1, name));
                            } else {
                                if decides_after(full, n - 1, name) {
                                    let w = choose|i: int|
                                        n - 1 <= i < full.len() && (#[trigger] full[i]) is Decision
                                            && full[i]->package == name;
                                    assert(w != n - 1);
                                    assert(decides_after(full, n, name));
                                }
                                if decides_after(full, n, name) {
                                    let w = choose|i: int|
                                        n <= i < full.len() && (#[trigger] full[i]) is Decision
                                            && full[i]->package == name;
                                    assert(decides_after(full, n - 1, name));
                                }
                            }
                        }
                    }
                },
                Some(Assignment::Derivation { .. }) => {
                    proof {
                        assert(!(full[n - 1] is Decision));
                        assert forall|name: Seq<char>|
                            decides_after(full, n - 1, name) == decides_after(full, n, name) by {
                            if decides_after(full, n - 1, name) {
                                let w = choose|i: int|
                                    n - 1 <= i < full.len() && (#[trigger] full[i]) is Decision
                                        && full[i]->package == name;
                                assert(w != n - 1);
                                assert(decides_after(full, n, name));
                            }
                            if decides_after(full, n, name) {
                                let w = choose|i: int|
                                    n <= i < full.len() && (#[trigger] full[i]) is Decision
                                        && full[i]->package == name;
                                assert(decides_after(full, n - 1, name));
                            }
                        }
                    }
                },
                None => {},
            }
        }
        proof {
            assert(backtrack_len(self.log(), decision_level as nat) == self.log().len());
        }
    }
}

// ---------------------------------------------------------------------------
// Unit propagation
// ---------------------------------------------------------------------------

/// How an incompatibility stands against the decided versions.
#[derive(Debug, Clone, Copy, PartialEq, Eq, Structural)]
pub enum Status {
    /// Every term holds.
    Conflict,
    /// The term at this position is undecided and every other term holds.
    Unit(usize),
    /// Neither.
    Idle,
}

/// Whether no version is decided for the package of the term.
pub open spec fn term_undecided(decided: Decided, t: TermView) -> bool {
    decided(t.package) is None
}

/// Whether every term of the incompatibility holds.
pub open spec fn is_conflict(decided: Decided, inc: IncompatibilityView) -> bool {
    forall|k: int| 0 <= k < inc.terms.len() ==> term_satisfied(decided, #[trigger] inc.terms[k])
}

/// Whether the term at `k` is undecided and every other term holds.
pub open spec fn is_unit_at(decided: Decided, inc: IncompatibilityView, k: int) -> bool {
    &&& 0 <= k < inc.terms.len()
    &&& term_undecided(decided, inc.terms[k])
    &&& forall|j: int|
        0 <= j < inc.terms.len() && j != k ==> term_satisfied(decided, #[trigger] inc.terms[j])
}

/// Whether the log holds a derivation of the term.
pub open spec fn derived(log: Seq<AssignmentView>, t: TermView) -> bool {
    exists|i: int| 0 <= i < log.len() && (#[trigger] log[i]) is Derivation && log[i]->term == t
}

/// Whether the incompatibility needs nothing more: it is no conflict, and
/// where it is a unit the negation of its undecided term is derived.
pub open spec fn settled(log: Seq<AssignmentView>, decided: Decided, inc: IncompatibilityView) -> bool {
    &&& !is_conflict(decided, inc)
    &&& forall|k: int| #[trigger]
        is_unit_at(decided, inc, k) ==> derived(log, negated(inc.terms[k]))
}

/// Whether the entry at `p` is a derivation that propagation at `level`
/// made: it negates the undecided term of the unit incompatibility that it
/// names as its cause, and no earlier entry derives the same term.
pub open spec fn forced(
    log: Seq<AssignmentView>,
    incs: Seq<IncompatibilityView>,
    decided: Decided,
    level: nat,
    p: int,
) -> bool {
    &&& 0 <= p < log.len()
    &&& log[p] is Derivation
    &&& log[p]->Derivation_decision_level == level
    &&& log[p]->cause < incs.len()
    &&& exists|k: int| #[trigger]
        is_unit_at(decided, incs[log[p]->cause as int], k) && log[p]->term == negated(
            incs[log[p]->cause as int].terms[k],
        )
    &&& !derived(log.take(p), log[p]->term)
}

/// A derivation in a log is still there when the log has grown.
pub proof fn lemma_derived_grows(log: Seq<AssignmentView>, longer: Seq<AssignmentView>, t: TermView)
    requires
        log.len() <= longer.len(),
        longer.take(log.len() as int) == log,
        derived(log, t),
    ensures
        derived(longer, t),
{
    let i = choose|i: int| 0 <= i < log.len() && (#[trigger] log[i]) is Derivation && log[i]->term == t;
    assert(longer.take(log.len() as int)[i] == longer[i]);
    assert(longer[i] is Derivation && longer[i]->term == t);
}

/// How the incompatibility stands against the decided versions of the
/// solution.
pub fn classify(solution: &PartialSolution, inc: &Incompatibility) -> (r: Status)
    ensures
        match r {
            Status::Conflict => is_conflict(solution.decided(), inc@),
            Status::Unit(k) => is_unit_at(solution.decided(), inc@, k as int),
            Status::Idle => !is_conflict(solution.decided(), inc@) && forall|k: int|
                !#[trigger] is_unit_at(solution.decided(), inc@, k),
        },
{
    let ghost d = solution.decided();
    let ghost ts = inc@.terms;
    let mut undecided: Option<usize> = None;
    let mut i: usize = 0;
    while i < inc.terms.len()
        invariant
            i <= inc.terms.len(),
            d == solution.decided(),
            ts == inc@.terms,
            ts.len() == inc.terms.len(),
            match undecided {
                Some(u) => u < i && term_undecided(d, ts[u as int]) && forall|j: int|
                    0 <= j < i && j != u ==> term_satisfied(d, #[trigger] ts[j]),
                None => forall|j: int| 0 <= j < i ==> term_satisfied(d, #[trigger] ts[j]),
            },
        decreases inc.terms.len() - i,
    {
        let t = &inc.terms[i];
        assert(ts[i as int] == t@);
        if solution.satisfies(t) {
        } else if solution.unsatisfies(t) {
            proof {
                assert(!term_satisfied(d, ts[i as int]));
                assert(!term_undecided(d, ts[i as int]));
                assert forall|k: int| !#[trigger] is_unit_at(d, inc@, k) by {
                    if is_unit_at(d, inc@, k) {
                        if k != i {
                            assert(term_satisfied(d, ts[i as int]));
                        }
                    }
                }
            }
            return Status::Idle;
        } else {
            assert(term_undecided(d, ts[i as int]));
            match undecided {
                Some(u) => {
                    proof {
                        assert(!term_satisfied(d, ts[i as int]));
                        assert(!term_satisfied(d, ts[u as int]));
                        assert forall|k: int| !#[trigger] is_unit_at(d, inc@, k) by {
                            if is_unit_at(d, inc@, k) {
                                if k != i {
                                    assert(term_satisfied(d, ts[i as int]));
                                } else {
                                    assert(term_satisfied(d, ts[u as int]));
                                }
                            }
                        }
                    }
                    return Status::Idle;
                },
                None => {},
            }
            undecided = Some(i);
        }
        i += 1;
    }
    match undecided {
        Some(u) => Status::Unit(u),
        None => Status::Conflict,
    }
}

/// Whether the log of the solution holds a derivation of `term`.
pub fn has_derivation(solution: &PartialSolution, term: &Term) -> (r: bool)
    ensures
        r == derived(solution.log(), term@),
{
    let ghost log = solution.log();
    let mut i: usize = 0;
    while i < solution.assignments.len()
        invariant
            i <= solution.assignments.len(),
            log == solution.log(),
            forall|j: int| 0 <= j < i ==> !((#[trigger] log[j]) is Derivation && log[j]->term == term@),
        decreases solution.assignments.len() - i,
    {
        assert(log[i as int] == solution.assignments[i as int]@);
        match &solution.assignments[i] {
            Assignment::Derivation { term: t, .. } => {
                if t.same(term) {
                    return true;
                }
            },
            Assignment::Decision { .. } => {},
        }
        i += 1;
    }
    false
}

// ---------------------------------------------------------------------------
// The solver
// ---------------------------------------------------------------------------

/// One solve session: the root package, the incompatibilities learned so
/// far, the partial solution, the environment that markers are evaluated
/// in, and how many more times the session may backtrack.
#[derive(Debug)]
pub struct Solver {
    pub root: PackageName,
    pub root_version: Version,
    pub incompatibilities: Vec<Incompatibility>,
    pub solution: PartialSolution,
    pub env: TargetEnvironment,
    pub budget: usize,
}

/// Whether a log and a table of decided versions belong to an open session
/// for `root`: the log begins with a decision, no later decision is about
/// the root, and the root is decided as `version`.
pub open spec fn rooted_at(
    log: Seq<AssignmentView>,
    decided: Decided,
    root: Seq<char>,
    version: VersionView,
) -> bool {
    &&& decided(root) == Some(version)
    &&& log.len() >= 1
    &&& log[0] is Decision
    &&& forall|p: int| 1 <= p < log.len() && (#[trigger] log[p]) is Decision ==> log[p]->package != root
}

/// Cutting a log that begins with a decision back to one decision or more
/// keeps its first entry.
pub proof fn lemma_backtrack_keeps_first(log: Seq<AssignmentView>, level: nat)
    requires
        log.len() >= 1,
        log[0] is Decision,
        level >= 1,
    ensures
        backtrack_len(log, level) >= 1,
    decreases log.len(),
{
    if count_decisions(log) > level {
        if log.len() == 1 {
            assert(log.drop_last().len() == 0);
            assert(count_decisions(log.drop_last()) == 0);
            assert(log.last() == log[0]);
        } else {
            assert(log.drop_last()[0] == log[0]);
            lemma_backtrack_keeps_first(log.drop_last(), level);
        }
    }
}

/// Backtracking to one decision or more keeps an open session open.
pub proof fn lemma_rooted_after_backtrack(
    log: Seq<AssignmentView>,
    decided: Decided,
    after: Decided,
    root: Seq<char>,
    version: VersionView,
    level: nat,
)
    requires
        rooted_at(log, decided, root, version),
        level >= 1,
        forall|name: Seq<char>|
            #[trigger] after(name) == (if decides_after(
                log,
                backtrack_len(log, level) as int,
                name,
            ) {
                None
            } else {
                decided(name)
            }),
    ensures
        rooted_at(log.take(backtrack_len(log, level) as int), after, root, version),
{
    lemma_backtrack_keeps_first(log, level);
    lemma_backtrack_len(log, level);
    let cut = backtrack_len(log, level) as int;
    let kept = log.take(cut);
    if decides_after(log, cut, root) {
        let i = choose|i: int|
            cut <= i < log.len() && (#[trigger] log[i]) is Decision && log[i]->package == root;
        assert(false);
    }
    assert(after(root) == decided(root));
    assert(kept[0] == log[0]);
    assert forall|p: int| 1 <= p < kept.len() && (#[trigger] kept[p]) is Decision implies kept[p]->package
        != root by {
        assert(kept[p] == log[p]);
    }
}

/// The root's requirement is met in a state in which its incompatibility
/// is neither a conflict nor a unit that awaits a decision.
pub proof fn lemma_requirement_met(
    decided: Decided,
    root: Seq<char>,
    version: VersionView,
    dep: DependencyView,
    cause: CauseView,
)
    requires
        decided(root) == Some(version),
        !is_conflict(decided, dependency_incompatibility(root, version, dep, cause)),
        forall|k: int| #[trigger]
            is_unit_at(decided, dependency_incompatibility(root, version, dep, cause), k)
                ==> dependency_incompatibility(root, version, dep, cause).terms[k].positive,
    ensures
        is_met(decided, dep),
{
    let inc = dependency_incompatibility(root, version, dep, cause);
    assert(inc.terms[0].package == root);
    lemma_version_order_antisymmetric(version, version);
    assert(allows_spec(ConstraintView::Exact(version), version));
    assert(term_satisfied(decided, inc.terms[0]));
    assert(inc.terms[1].package == dep.0);
    if decided(dep.0) is None {
        assert(is_unit_at(decided, inc, 1)) by {
            assert forall|j: int| 0 <= j < inc.terms.len() && j != 1 implies term_satisfied(
                decided,
                #[trigger] inc.terms[j],
            ) by {
                assert(j == 0);
            }
        }
        assert(inc.terms[1].positive);
    } else {
        if !allows_spec(dep.1, decided(dep.0)->0) {
            assert(term_satisfied(decided, inc.terms[1]));
            assert forall|k: int| 0 <= k < inc.terms.len() implies term_satisfied(
                decided,
                #[trigger] inc.terms[k],
            ) by {
                assert(k == 0 || k == 1);
            }
            assert(is_conflict(decided, inc));
        }
    }
}

/// Whether the decided versions meet a requirement: its package has a
/// version, which the constraint allows.
pub open spec fn is_met(decided: Decided, dep: DependencyView) -> bool {
    decided(dep.0) matches Some(w) && allows_spec(dep.1, w)
}

impl Solver {
    /// The incompatibilities of the session.
    pub open spec fn incs(&self) -> Seq<IncompatibilityView> {
        incompatibility_views(self.incompatibilities@)
    }

    /// The state of the session.
    pub open spec fn state(&self) -> State {
        State {
            log: self.solution.log(),
            decided: self.solution.decided(),
            incs: self.incs(),
            budget: self.budget as nat,
        }
    }

    /// Whether the session has neither assignments nor decided versions.
    pub open spec fn blank(&self) -> bool {
        &&& self.solution.log().len() == 0
        &&& forall|name: Seq<char>| (#[trigger] (self.solution.decided())(name)) is None
    }

    /// Whether the session is open: see [`rooted_at`].
    pub open spec fn rooted(&self) -> bool {
        rooted_at(
            self.solution.log(),
            self.solution.decided(),
            self.root@,
            self.root_version@,
        )
    }

    /// Everything of the session but its partial solution is as in `other`.
    pub open spec fn same_setting(&self, other: &Solver) -> bool {
        &&& self.root == other.root
        &&& self.root_version == other.root_version
        &&& self.incompatibilities == other.incompatibilities
        &&& self.env == other.env
        &&& self.budget == other.budget
    }

    /// One pass of unit propagation over the incompatibilities, in order.
    /// For each unit incompatibility the negation of its undecided term
    /// enters the log as a derivation, unless the log holds it already. The
    /// pass ends at the first incompatibility whose terms all hold, which is
    /// returned as the conflict. Decided versions do not change, so after a
    /// pass without conflict every incompatibility is settled. The state
    /// after the pass and the conflict are those that [`after_pass`] gives.
    pub fn propagate(&mut self) -> (r: Option<usize>)
        ensures
            after_pass(old(self).state()) == (final(self).state(), position(r)),
            final(self).same_setting(old(self)),
            old(self).rooted() ==> final(self).rooted(),
            final(self).solution.decisions == old(self).solution.decisions,
            old(self).solution.log().len() <= final(self).solution.log().len(),
            final(self).solution.log().take(old(self).solution.log().len() as int) == old(
                self,
            ).solution.log(),
            forall|p: int|
                old(self).solution.log().len() <= p < final(self).solution.log().len()
                    ==> #[trigger] forced(
                    final(self).solution.log(),
                    old(self).incs(),
                    old(self).solution.decided(),
                    count_decisions(old(self).solution.log()),
                    p,
                ),
            forall|p: int, q: int|
                old(self).solution.log().len() <= p < q < final(self).solution.log().len() ==> (
                #[trigger] final(self).solution.log()[p])->cause < (
                #[trigger] final(self).solution.log()[q])->cause,
            match r {
                Some(i) => {
                    &&& i < old(self).incs().len()
                    &&& is_conflict(old(self).solution.decided(), old(self).incs()[i as int])
                    &&& forall|j: int|
                        0 <= j < i ==> settled(
                            final(self).solution.log(),
                            old(self).solution.decided(),
                            #[trigger] old(self).incs()[j],
                        )
                },
                None => forall|j: int|
                    0 <= j < old(self).incs().len() ==> settled(
                        final(self).solution.log(),
                        old(self).solution.decided(),
                        #[trigger] old(self).incs()[j],
                    ),
            },
    {
        let level = self.solution.decision_level();
        let ghost incs = self.incs();
        let ghost d = self.solution.decided();
        let ghost start = self.solution.log();
        let n = self.incompatibilities.len();
        assert(start.take(start.len() as int) == start);
        let mut i: usize = 0;
        while i < n
            invariant
                i <= n,
                n == self.incompatibilities.len(),
                self.same_setting(old(self)),
                self.solution.decisions == old(self).solution.decisions,
                old(self).rooted() ==> self.rooted(),
                incs == old(self).incs(),
                incs.len() == n,
                d == old(self).solution.decided(),
                start == old(self).solution.log(),
                level == count_decisions(start),
                start.len() <= self.solution.log().len(),
                self.solution.log().take(start.len() as int) == start,
                forall|p: int|
                    start.len() <= p < self.solution.log().len() ==> #[trigger] forced(
                        self.solution.log(),
                        incs,
                        d,
                        level as nat,
                        p,
                    ),
                forall|p: int|
                    start.len() <= p < self.solution.log().len() ==> (
                    #[trigger] self.solution.log()[p])->cause < i,
                forall|p: int, q: int|
                    start.len() <= p < q < self.solution.log().len() ==> (
                    #[trigger] self.solution.log()[p])->cause < (
                    #[trigger] self.solution.log()[q])->cause,
                forall|j: int| 0 <= j < i ==> settled(self.solution.log(), d, #[trigger] incs[j]),
                propagated(self.solution.log(), incs, d, level, i as int) == propagated(
                    start,
                    incs,
                    d,
                    level,
                    0,
                ),
            decreases n - i,
        {
            let ghost log = self.solution.log();
            assert(incs[i as int] == self.incompatibilities[i as int]@);
            match classify(&self.solution, &self.incompatibilities[i]) {
                Status::Conflict => {
                    return Some(i);
                },
                Status::Unit(k) => {
                    let term = self.incompatibilities[i].terms[k].negate();
                    assert(incs[i as int].terms[k as int] == self.incompatibilities[i as int].terms[k as int]@);
                    assert(term@ == negated(incs[i as int].terms[k as int]));
                    proof {
                        lemma_unit_index(d, incs[i as int], k as int);
                        lemma_unit_no_conflict(d, incs[i as int], k as int);
                    }
                    if !has_derivation(&self.solution, &term) {
                        let ghost tv = term@;
                        self.solution.assign(
                            Assignment::Derivation { term, cause: i, decision_level: level },
                        );
                        proof {
                            let now = self.solution.log();
                            let p0 = log.len() as int;
                            assert(now.take(p0) == log);
                            if old(self).rooted() {
                                assert(now[0] == log[0]);
                                assert forall|p: int|
                                    1 <= p < now.len() && (#[trigger] now[p]) is Decision implies now[p]->package
                                    != self.root@ by {
                                    if p < p0 {
                                        assert(now[p] == log[p]);
                                    }
                                }
                            }
                            assert(now.take(start.len() as int) =~= log.take(start.len() as int));
                            assert(is_unit_at(d, incs[i as int], k as int));
                            assert(forced(now, incs, d, level as nat, p0));
                            assert forall|p: int| start.len() <= p < now.len() implies (
                            #[trigger] now[p])->cause < i + 1 by {
                                if p < p0 {
                                    assert(now[p] == log[p]);
                                }
                            }
                            assert forall|p: int| start.len() <= p < now.len() implies #[trigger] forced(
                                now,
                                incs,
                                d,
                                level as nat,
                                p,
                            ) by {
                                if p < p0 {
                                    assert(forced(log, incs, d, level as nat, p));
                                    assert(now[p] == log[p]);
                                    assert(now.take(p) =~= log.take(p));
                                    let kk = choose|kk: int| #[trigger]
                                        is_unit_at(d, incs[log[p]->cause as int], kk) && log[p]->term
                                            == negated(incs[log[p]->cause as int].terms[kk]);
                                    assert(is_unit_at(d, incs[now[p]->cause as int], kk));
                                }
                            }
                            assert forall|p: int, q: int|
                                start.len() <= p < q < now.len() implies (#[trigger] now[p])->cause < (
                            #[trigger] now[q])->cause by {
                                assert(now[p] == log[p]);
                                if q < p0 {
                                    assert(now[q] == log[q]);
                                }
                            }
                            assert forall|j: int| 0 <= j < i + 1 implies settled(
                                now,
                                d,
                                #[trigger] incs[j],
                            ) by {
                                if j < i {
                                    assert(settled(log, d, incs[j]));
                                    assert forall|kk: int| #[trigger]
                                        is_unit_at(d, incs[j], kk) implies derived(
                                        now,
                                        negated(incs[j].terms[kk]),
                                    ) by {
                                        lemma_derived_grows(log, now, negated(incs[j].terms[kk]));
                                    }
                                } else {
                                    assert(now[p0] is Derivation && now[p0]->term == tv);
                                    assert(derived(now, tv));
                                    assert forall|kk: int| #[trigger]
                                        is_unit_at(d, incs[j], kk) implies derived(
                                        now,
                                        negated(incs[j].terms[kk]),
                                    ) by {
                                        lemma_unit_unique(d, incs[j], kk, k as int);
                                    }
                                    lemma_unit_no_conflict(d, incs[j], k as int);
                                }
                            }
                        }
                    } else {
                        proof {
                            assert forall|kk: int| #[trigger]
                                is_unit_at(d, incs[i as int], kk) implies derived(
                                log,
                                negated(incs[i as int].terms[kk]),
                            ) by {
                                lemma_unit_unique(d, incs[i as int], kk, k as int);
                            }
                            lemma_unit_no_conflict(d, incs[i as int], k as int);
                        }
                    }
                },
                Status::Idle => {},
            }
            i += 1;
        }
        None
    }
}

/// The text of a name, if there is one.
pub open spec fn name_of(r: Option<PackageName>) -> Option<Seq<char>> {
    match r {
        Some(name) => Some(name@),
        None => None,
    }
}

/// A position in a sequence, as an integer.
pub open spec fn position(r: Option<usize>) -> Option<int> {
    match r {
        Some(i) => Some(i as int),
        None => None,
    }
}

/// The position at which an incompatibility is a unit is its unit index.
pub proof fn lemma_unit_index(decided: Decided, inc: IncompatibilityView, k: int)
    requires
        is_unit_at(decided, inc, k),
    ensures
        unit_index(decided, inc) == Some(k),
{
    let c = choose|c: int| is_unit_at(decided, inc, c);
    lemma_unit_unique(decided, inc, c, k);
}

/// An incompatibility is a unit at one position at most.
pub proof fn lemma_unit_unique(decided: Decided, inc: IncompatibilityView, a: int, b: int)
    requires
        is_unit_at(decided, inc, a),
        is_unit_at(decided, inc, b),
    ensures
        a == b,
{
    if a != b {
        assert(term_satisfied(decided, inc.terms[a]));
    }
}

/// A unit incompatibility is no conflict.
pub proof fn lemma_unit_no_conflict(decided: Decided, inc: IncompatibilityView, k: int)
    requires
        is_unit_at(decided, inc, k),
    ensures
        !is_conflict(decided, inc),
{
    if is_conflict(decided, inc) {
        assert(term_satisfied(decided, inc.terms[k]));
    }
}

// ---------------------------------------------------------------------------
// Decisions
// ---------------------------------------------------------------------------

/// Whether the entry at `p` calls for a decision: a positive derivation
/// about a package without a decided version.
pub open spec fn is_candidate(log: Seq<AssignmentView>, decided: Decided, p: int) -> bool {
    &&& 0 <= p < log.len()
    &&& log[p] is Derivation
    &&& log[p]->term.positive
    &&& decided(log[p]->term.package) is None
}

/// The requirements of the package, as text.
pub open spec fn requirement_texts(info: PyPIPackageInfo) -> Seq<Seq<char>> {
    match info.info.requires_dist {
        Some(v) => texts(v@),
        None => Seq::empty(),
    }
}

/// The position of the best among the first `n` version texts: the highest
/// version, and of several that are equally high the first. Texts that are
/// no version are passed over.
pub open spec fn best_index(keys: Seq<Seq<char>>, n: int) -> Option<int>
    decreases n,
{
    if n <= 0 {
        None
    } else {
        let prev = best_index(keys, n - 1);
        match parse_spec(keys[n - 1]) {
            None => prev,
            Some(v) => match prev {
                None => Some(n - 1),
                Some(i) => if version_order(parse_spec(keys[i])->0, v) < 0 {
                    Some(n - 1)
                } else {
                    Some(i)
                },
            },
        }
    }
}

/// The highest version among the version texts.
pub open spec fn best_version_spec(keys: Seq<Seq<char>>) -> Option<VersionView> {
    match best_index(keys, keys.len() as int) {
        Some(i) => parse_spec(keys[i]),
        None => None,
    }
}

/// The best version is a version of the list that none of the list exceeds
/// and that every version before it falls short of; there is none only
/// where no text of the list is a version.
pub proof fn lemma_best_index(keys: Seq<Seq<char>>, n: int)
    requires
        0 <= n <= keys.len(),
    ensures
        match best_index(keys, n) {
            Some(i) => {
                &&& 0 <= i < n
                &&& parse_spec(keys[i]) is Some
                &&& forall|j: int|
                    0 <= j < n && parse_spec(#[trigger] keys[j]) is Some ==> version_order(
                        parse_spec(keys[j])->0,
                        parse_spec(keys[i])->0,
                    ) <= 0
                &&& forall|j: int|
                    0 <= j < i && parse_spec(#[trigger] keys[j]) is Some ==> version_order(
                        parse_spec(keys[j])->0,
                        parse_spec(keys[i])->0,
                    ) < 0
            },
            None => forall|j: int| 0 <= j < n ==> parse_spec(#[trigger] keys[j]) is None,
        },
    decreases n,
{
    if n > 0 {
        lemma_best_index(keys, n - 1);
        match parse_spec(keys[n - 1]) {
            None => {},
            Some(v) => {
                lemma_version_order_antisymmetric(v, v);
                match best_index(keys, n - 1) {
                    None => {},
                    Some(i) => {
                        let b = parse_spec(keys[i])->0;
                        lemma_version_order_antisymmetric(b, v);
                        if version_order(b, v) < 0 {
                            assert forall|j: int|
                                0 <= j < n && parse_spec(#[trigger] keys[j]) is Some implies version_order(
                                parse_spec(keys[j])->0,
                                v,
                            ) < 0 || j == n - 1 by {
                                if j < n - 1 {
                                    lemma_version_order_transitive(parse_spec(keys[j])->0, b, v);
                                }
                            }
                        }
                    },
                }
            },
        }
    }
}

/// The highest version under which the package has a release.
pub fn best_version(info: &PyPIPackageInfo) -> (r: Option<Version>)
    ensures
        match r {
            Some(v) => best_version_spec(release_keys(*info)) == Some(v@),
            None => best_version_spec(release_keys(*info)) is None,
        },
{
    let ghost keys = release_keys(*info);
    let mut best: Option<Version> = None;
    let mut i: usize = 0;
    while i < info.releases.len()
        invariant
            i <= info.releases.len(),
            keys == release_keys(*info),
            match best {
                Some(v) => best_index(keys, i as int) is Some && parse_spec(
                    keys[best_index(keys, i as int)->0],
                ) == Some(v@),
                None => best_index(keys, i as int) is None,
            },
        decreases info.releases.len() - i,
    {
        assert(keys[i as int] == info.releases@[i as int].0@);
        proof {
            lemma_best_index(keys, i as int);
        }
        match Version::parse(info.releases[i].0.as_str()) {
            Ok(v) => {
                let better = match &best {
                    Some(b) => b.precedes(&v),
                    None => true,
                };
                if better {
                    best = Some(v);
                }
            },
            Err(_) => {},
        }
        i += 1;
    }
    best
}

/// The name and constraint of a dependency.
pub type DependencyView = (Seq<char>, ConstraintView);

/// What one requirement of a package contributes: nothing where its marker
/// does not hold in the environment, else the name it requires with the
/// constraint of its specifiers; a failure where it cannot be read.
pub open spec fn dependency_of(
    req: Seq<char>,
    python_version: Seq<char>,
    sys_platform: Seq<char>,
    platform_system: Seq<char>,
) -> Result<Option<DependencyView>, ParseError> {
    match requirement_spec(req) {
        Err(e) => Err(e),
        Ok(d) => if d.marker is Some && !evaluate_spec(
            d.marker->0,
            python_version,
            sys_platform,
            platform_system,
        ) {
            Ok(None)
        } else {
            match constraint_spec(d.version_specs) {
                Ok(c) => Ok(Some((d.name, c))),
                Err(e) => Err(e),
            }
        },
    }
}

/// The dependencies that the requirements from `i` on add to `acc`, in
/// order; the first failure where one cannot be read.
pub open spec fn dependencies_acc(
    reqs: Seq<Seq<char>>,
    python_version: Seq<char>,
    sys_platform: Seq<char>,
    platform_system: Seq<char>,
    i: int,
    acc: Seq<DependencyView>,
) -> Result<Seq<DependencyView>, ParseError>
    decreases reqs.len() - i,
{
    if 0 <= i < reqs.len() {
        match dependency_of(reqs[i], python_version, sys_platform, platform_system) {
            Err(e) => Err(e),
            Ok(Some(d)) => dependencies_acc(
                reqs,
                python_version,
                sys_platform,
                platform_system,
                i + 1,
                acc.push(d),
            ),
            Ok(None) => dependencies_acc(
                reqs,
                python_version,
                sys_platform,
                platform_system,
                i + 1,
                acc,
            ),
        }
    } else {
        Ok(acc)
    }
}

/// The dependencies that a list of requirements denotes in an environment.
pub open spec fn dependencies_spec(
    reqs: Seq<Seq<char>>,
    python_version: Seq<char>,
    sys_platform: Seq<char>,
    platform_system: Seq<char>,
) -> Result<Seq<DependencyView>, ParseError> {
    dependencies_acc(reqs, python_version, sys_platform, platform_system, 0, Seq::empty())
}

/// The values of a list of dependencies.
pub open spec fn dependency_views(v: Seq<(PackageName, Constraint)>) -> Seq<DependencyView> {
    Seq::new(v.len(), |i: int| (v[i].0@, v[i].1@))
}

/// The dependencies that the requirement texts denote in `env`: each text
/// is read, those whose marker does not hold are passed over, and the rest
/// yield a name and a constraint. The first text that cannot be read makes
/// the whole fail.
pub fn dependencies_of(reqs: &Vec<String>, env: &TargetEnvironment) -> (r: Result<
    Vec<(PackageName, Constraint)>,
    ParseError,
>)
    ensures
        match r {
            Ok(v) => dependencies_spec(
                texts(reqs@),
                env.python_version@,
                env.sys_platform@,
                env.platform_system@,
            ) == Ok::<Seq<DependencyView>, ParseError>(dependency_views(v@)),
            Err(e) => dependencies_spec(
                texts(reqs@),
                env.python_version@,
                env.sys_platform@,
                env.platform_system@,
            ) == Err::<Seq<DependencyView>, ParseError>(e),
        },
{
    let ghost rs = texts(reqs@);
    let mut deps: Vec<(PackageName, Constraint)> = Vec::new();
    let mut i: usize = 0;
    assert(dependency_views(deps@) =~= Seq::<DependencyView>::empty());
    while i < reqs.len()
        invariant
            i <= reqs.len(),
            rs == texts(reqs@),
            dependencies_acc(
                rs,
                env.python_version@,
                env.sys_platform@,
                env.platform_system@,
                i as int,
                dependency_views(deps@),
            ) == dependencies_spec(
                rs,
                env.python_version@,
                env.sys_platform@,
                env.platform_system@,
            ),
        decreases reqs.len() - i,
    {
        assert(rs[i as int] == reqs[i as int]@);
        match parse_requirement(reqs[i].as_str()) {
            Err(e) => {
                return Err(e);
            },
            Ok(spec) => {
                let applies = match &spec.marker {
                    Some(m) => m.evaluate(env),
                    None => true,
                };
                if applies {
                    match spec.constraint() {
                        Err(e) => {
                            return Err(e);
                        },
                        Ok(c) => {
                            let ghost before = deps@;
                            let name = spec.name;
                            deps.push((name, c));
                            assert(dependency_views(deps@) =~= dependency_views(before).push(
                                (name@, c@),
                            ));
                        },
                    }
                }
            },
        }
        i += 1;
    }
    Ok(deps)
}

// ---------------------------------------------------------------------------
// Conflicts
// ---------------------------------------------------------------------------

/// Why no assignment exists: the incompatibility whose terms all hold, and
/// the incompatibilities that forced the derivations about its packages, in
/// the order of the log.
#[derive(Debug)]
pub struct UnsolvableConflict {
    pub conflict: Incompatibility,
    pub chain: Vec<Incompatibility>,
}

/// Why a solve session failed.
#[derive(Debug)]
pub enum SolveError {
    /// A version or requirement could not be read.
    Parse(ParseError),
    /// The metadata source does not know the package.
    PackageNotFound(PackageName),
    /// No assignment exists, or none was found before the session ran out
    /// of backtracking steps.
    Unsolvable(UnsolvableConflict),
    /// Metadata was supplied for a package that has a decided version.
    Unexpected(PackageName),
    /// The session took more steps than it was given.
    OutOfBudget,
}

/// What the solver does next.
#[derive(Debug)]
pub enum Step {
    /// The metadata of this package is needed.
    Fetch(PackageName),
    /// Every package that needs a version has one.
    Solved,
    /// No assignment exists.
    Failed(UnsolvableConflict),
}

/// Whether a term of the incompatibility is about the package `name`.
pub open spec fn mentions(inc: IncompatibilityView, name: Seq<char>) -> bool {
    exists|k: int| 0 <= k < inc.terms.len() && (#[trigger] inc.terms[k]).package == name
}

/// The causes of the derivations from `i` on that are about a package of
/// `conflict`, appended to `acc`.
pub open spec fn causes_acc(
    log: Seq<AssignmentView>,
    incs: Seq<IncompatibilityView>,
    conflict: IncompatibilityView,
    i: int,
    acc: Seq<IncompatibilityView>,
) -> Seq<IncompatibilityView>
    decreases log.len() - i,
{
    if 0 <= i < log.len() {
        if log[i] is Derivation && log[i]->cause < incs.len() && mentions(
            conflict,
            log[i]->term.package,
        ) {
            causes_acc(log, incs, conflict, i + 1, acc.push(incs[log[i]->cause as int]))
        } else {
            causes_acc(log, incs, conflict, i + 1, acc)
        }
    } else {
        acc
    }
}

/// The causes of the derivations of the log that are about a package of
/// `conflict`, in the order of the log.
pub open spec fn causal_chain(
    log: Seq<AssignmentView>,
    incs: Seq<IncompatibilityView>,
    conflict: IncompatibilityView,
) -> Seq<IncompatibilityView> {
    causes_acc(log, incs, conflict, 0, Seq::empty())
}

/// The state in which nothing is left to do: no incompatibility is a
/// conflict, and where all terms but one hold, that one is positive and
/// fails. So wherever a package is decided as a dependency incompatibility
/// says, its dependency is decided too, within the constraint.
pub open spec fn is_solved(decided: Decided, incs: Seq<IncompatibilityView>) -> bool {
    forall|j: int|
        0 <= j < incs.len() ==> {
            &&& !is_conflict(decided, #[trigger] incs[j])
            &&& forall|k: int| #[trigger] is_unit_at(decided, incs[j], k) ==> incs[j].terms[k].positive
        }
}

/// The incompatibility that says: `package` at `version` needs `dep`.
pub open spec fn dependency_incompatibility(
    package: Seq<char>,
    version: VersionView,
    dep: DependencyView,
    cause: CauseView,
) -> IncompatibilityView {
    IncompatibilityView {
        terms: seq![
            TermView { package, constraint: ConstraintView::Exact(version), positive: true },
            TermView { package: dep.0, constraint: dep.1, positive: false },
        ],
        cause,
    }
}

/// The incompatibility that says: `package` has no version.
pub open spec fn no_version_incompatibility(package: Seq<char>) -> IncompatibilityView {
    IncompatibilityView {
        terms: seq![TermView { package, constraint: ConstraintView::Any, positive: true }],
        cause: CauseView::NoVersion,
    }
}

fn mentions_package(inc: &Incompatibility, name: &str) -> (r: bool)
    ensures
        r == mentions(inc@, name@),
{
    let mut k: usize = 0;
    while k < inc.terms.len()
        invariant
            k <= inc.terms.len(),
            forall|j: int| 0 <= j < k ==> (#[trigger] inc@.terms[j]).package != name@,
        decreases inc.terms.len() - k,
    {
        assert(inc@.terms[k as int] == inc.terms[k as int]@);
        if same_text(inc.terms[k].package.as_str(), name) {
            return true;
        }
        k += 1;
    }
    false
}

fn make_dependency_incompatibility(
    package: &str,
    version: &Version,
    dep_name: &String,
    constraint: &Constraint,
    root: bool,
) -> (r: Incompatibility)
    ensures
        r@ == dependency_incompatibility(
            package@,
            version@,
            (dep_name@, constraint@),
            if root {
                CauseView::Root
            } else {
                CauseView::Dependency(package@, dep_name@)
            },
        ),
{
    let own = string_of(&chars_of(package));
    let first = Term::new(own, Constraint::Exact(version.clone()));
    let second = Term { package: dep_name.clone(), constraint: constraint.clone(), positive: false };
    let cause = if root {
        IncompatibilityCause::Root
    } else {
        IncompatibilityCause::Dependency(string_of(&chars_of(package)), dep_name.clone())
    };
    let r = Incompatibility { terms: vec![first, second], cause };
    assert(r@.terms =~= seq![first@, second@]);
    r
}

fn make_no_version_incompatibility(package: &str) -> (r: Incompatibility)
    ensures
        r@ == no_version_incompatibility(package@),
{
    let t = Term::new(string_of(&chars_of(package)), Constraint::Any);
    let r = Incompatibility { terms: vec![t], cause: IncompatibilityCause::NoVersion };
    assert(r@.terms =~= seq![t@]);
    r
}

impl Solver {
    /// A session for the root package at its version, without requirements
    /// and without assignments, that may take `budget` steps.
    pub fn new(root: PackageName, root_version: Version, env: TargetEnvironment, budget: usize) -> (r:
        Solver)
        ensures
            r.root == root,
            r.root_version == root_version,
            r.env == env,
            r.budget == budget,
            r.incs() == Seq::<IncompatibilityView>::empty(),
            r.solution.distinct(),
            r.solution.log() == Seq::<AssignmentView>::empty(),
            forall|name: Seq<char>| (#[trigger] (r.solution.decided())(name)) is None,
    {
        let r = Solver {
            root,
            root_version,
            incompatibilities: Vec::new(),
            solution: PartialSolution::new(),
            env,
            budget,
        };
        assert(r.incs() =~= Seq::<IncompatibilityView>::empty());
        r
    }

    /// Records that the root package needs `name` within `constraint`.
    pub fn require(&mut self, name: &String, constraint: &Constraint)
        ensures
            final(self).root == old(self).root,
            final(self).root_version == old(self).root_version,
            final(self).env == old(self).env,
            final(self).budget == old(self).budget,
            final(self).solution == old(self).solution,
            final(self).incs() == old(self).incs().push(
                dependency_incompatibility(
                    old(self).root@,
                    old(self).root_version@,
                    (name@, constraint@),
                    CauseView::Root,
                ),
            ),
    {
        let inc = make_dependency_incompatibility(
            self.root.as_str(),
            &self.root_version,
            name,
            constraint,
            true,
        );
        self.incompatibilities.push(inc);
        assert(self.incs() =~= old(self).incs().push(inc@));
    }

    /// Makes the decision for the root package, which opens the session.
    pub fn start(&mut self)
        ensures
            old(self).solution.distinct() ==> final(self).solution.distinct(),
            final(self).same_setting(old(self)),
            final(self).solution.log() == old(self).solution.log().push(
                AssignmentView::Decision {
                    package: old(self).root@,
                    version: old(self).root_version@,
                    decision_level: 0,
                },
            ),
            forall|name: Seq<char>|
                #[trigger] (final(self).solution.decided())(name) == (if name == old(self).root@ {
                    Some(old(self).root_version@)
                } else {
                    (old(self).solution.decided())(name)
                }),
    {
        let a = Assignment::Decision {
            package: self.root.clone(),
            version: self.root_version.clone(),
            decision_level: 0,
        };
        self.solution.assign(a);
    }

    /// The package to decide next: that of the first positive derivation in
    /// the log about a package without a decided version.
    pub fn choose_next_package(&self) -> (r: Option<PackageName>)
        ensures
            name_of(r) == first_candidate(self.solution.log(), self.solution.decided(), 0),
            match r {
                Some(name) => exists|p: int| #[trigger]
                    is_candidate(self.solution.log(), self.solution.decided(), p)
                        && self.solution.log()[p]->term.package == name@ && forall|q: int|
                        0 <= q < p ==> !is_candidate(
                            self.solution.log(),
                            self.solution.decided(),
                            q,
                        ),
                None => forall|p: int| !#[trigger]
                    is_candidate(self.solution.log(), self.solution.decided(), p),
            },
    {
        let ghost log = self.solution.log();
        let ghost d = self.solution.decided();
        let mut i: usize = 0;
        while i < self.solution.assignments.len()
            invariant
                i <= self.solution.assignments.len(),
                log == self.solution.log(),
                d == self.solution.decided(),
                forall|q: int| 0 <= q < i ==> !is_candidate(log, d, q),
                first_candidate(log, d, i as int) == first_candidate(log, d, 0),
            decreases self.solution.assignments.len() - i,
        {
            assert(log[i as int] == self.solution.assignments[i as int]@);
            match &self.solution.assignments[i] {
                Assignment::Derivation { term, .. } => {
                    if term.positive && self.solution.get_decision(term.package.as_str()).is_none() {
                        assert(is_candidate(log, d, i as int));
                        return Some(term.package.clone());
                    }
                },
                Assignment::Decision { .. } => {},
            }
            i += 1;
        }
        None
    }

    /// The incompatibilities that forced the derivations about the packages
    /// of `conflict`, in the order of the log.
    pub fn related_causes(&self, conflict: &Incompatibility) -> (r: Vec<Incompatibility>)
        ensures
            incompatibility_views(r@) == causal_chain(self.solution.log(), self.incs(), conflict@),
    {
        let ghost log = self.solution.log();
        let ghost incs = self.incs();
        let mut out: Vec<Incompatibility> = Vec::new();
        let mut i: usize = 0;
        assert(incompatibility_views(out@) =~= Seq::<IncompatibilityView>::empty());
        while i < self.solution.assignments.len()
            invariant
                i <= self.solution.assignments.len(),
                log == self.solution.log(),
                incs == self.incs(),
                causes_acc(log, incs, conflict@, i as int, incompatibility_views(out@))
                    == causal_chain(log, incs, conflict@),
            decreases self.solution.assignments.len() - i,
        {
            assert(log[i as int] == self.solution.assignments[i as int]@);
            match &self.solution.assignments[i] {
                Assignment::Derivation { term, cause, .. } => {
                    if *cause < self.incompatibilities.len() && mentions_package(
                        conflict,
                        term.package.as_str(),
                    ) {
                        let ghost before = out@;
                        let c = self.incompatibilities[*cause].clone();
                        assert(incs[*cause as int] == self.incompatibilities[*cause as int]@);
                        out.push(c);
                        assert(incompatibility_views(out@) =~= incompatibility_views(before).push(
                            c@,
                        ));
                    }
                },
                Assignment::Decision { .. } => {},
            }
            i += 1;
        }
        out
    }

    /// Answers a conflict. While a decision beyond the root's remains and
    /// the session has steps left, the last decision and what followed it
    /// leave the log, at the price of one step. Otherwise the conflict is
    /// final and comes back with its causal chain; the session is then as it
    /// was.
    pub fn resolve_conflict(&mut self, conflict: usize) -> (r: Result<(), UnsolvableConflict>)
        requires
            conflict < old(self).incs().len(),
        ensures
            old(self).solution.distinct() ==> final(self).solution.distinct(),
            final(self).root == old(self).root,
            final(self).root_version == old(self).root_version,
            final(self).env == old(self).env,
            final(self).incompatibilities == old(self).incompatibilities,
            old(self).rooted() ==> final(self).rooted(),
            match r {
                Ok(()) => {
                    &&& final(self).state() == retreated(old(self).state())
                    &&& count_decisions(old(self).solution.log()) > 1
                    &&& old(self).budget > 0
                    &&& final(self).budget == old(self).budget - 1
                    &&& final(self).solution.log() == old(self).solution.log().take(
                        backtrack_len(
                            old(self).solution.log(),
                            (count_decisions(old(self).solution.log()) - 1) as nat,
                        ) as int,
                    )
                    &&& forall|name: Seq<char>|
                        #[trigger] (final(self).solution.decided())(name) == (if decides_after(
                            old(self).solution.log(),
                            backtrack_len(
                                old(self).solution.log(),
                                (count_decisions(old(self).solution.log()) - 1) as nat,
                            ) as int,
                            name,
                        ) {
                            None
                        } else {
                            (old(self).solution.decided())(name)
                        })
                },
                Err(u) => {
                    &&& count_decisions(old(self).solution.log()) <= 1 || old(self).budget == 0
                    &&& final(self).budget == old(self).budget
                    &&& final(self).solution == old(self).solution
                    &&& u.conflict@ == old(self).incs()[conflict as int]
                    &&& incompatibility_views(u.chain@) == causal_chain(
                        old(self).solution.log(),
                        old(self).incs(),
                        old(self).incs()[conflict as int],
                    )
                },
            },
    {
        let level = self.solution.decision_level();
        if level <= 1 || self.budget == 0 {
            let c = self.incompatibilities[conflict].clone();
            assert(self.incs()[conflict as int] == self.incompatibilities[conflict as int]@);
            let chain = self.related_causes(&c);
            return Err(UnsolvableConflict { conflict: c, chain });
        }
        self.budget = self.budget - 1;
        self.solution.backtrack(level - 1);
        proof {
            if old(self).rooted() {
                lemma_rooted_after_backtrack(
                    old(self).solution.log(),
                    old(self).solution.decided(),
                    self.solution.decided(),
                    self.root@,
                    self.root_version@,
                    (level - 1) as nat,
                );
            }
            assert(self.solution.decided() =~= without_last_decision(
                old(self).solution.log(),
                old(self).solution.decided(),
            ));
        }
        Ok(())
    }
}

// ---------------------------------------------------------------------------
// Steps
// ---------------------------------------------------------------------------

/// The incompatibilities that say: `package` at `version` needs each of
/// `deps`.
pub open spec fn dependency_incompatibilities(
    package: Seq<char>,
    version: VersionView,
    deps: Seq<DependencyView>,
    root: bool,
) -> Seq<IncompatibilityView> {
    Seq::new(
        deps.len(),
        |i: int|
            dependency_incompatibility(
                package,
                version,
                deps[i],
                if root {
                    CauseView::Root
                } else {
                    CauseView::Dependency(package, deps[i].0)
                },
            ),
    )
}

impl Solver {
    /// Adds the incompatibilities that say that `package` at `version`
    /// needs each of `deps`.
    fn learn(&mut self, package: &str, version: &Version, deps: &Vec<(PackageName, Constraint)>, root: bool)
        ensures
            final(self).root == old(self).root,
            final(self).root_version == old(self).root_version,
            final(self).env == old(self).env,
            final(self).budget == old(self).budget,
            final(self).solution == old(self).solution,
            final(self).incs() == old(self).incs() + dependency_incompatibilities(
                package@,
                version@,
                dependency_views(deps@),
                root,
            ),
    {
        let ghost start = self.incs();
        let ghost all = dependency_incompatibilities(
            package@,
            version@,
            dependency_views(deps@),
            root,
        );
        let mut i: usize = 0;
        assert(start + all.take(0) =~= start);
        while i < deps.len()
            invariant
                i <= deps.len(),
                self.root == old(self).root,
                self.root_version == old(self).root_version,
                self.env == old(self).env,
                self.budget == old(self).budget,
                self.solution == old(self).solution,
                start == old(self).incs(),
                all == dependency_incompatibilities(
                    package@,
                    version@,
                    dependency_views(deps@),
                    root,
                ),
                self.incs() == start + all.take(i as int),
            decreases deps.len() - i,
        {
            let ghost before = self.incs();
            let inc = make_dependency_incompatibility(
                package,
                version,
                &deps[i].0,
                &deps[i].1,
                root,
            );
            self.incompatibilities.push(inc);
            proof {
                assert(dependency_views(deps@)[i as int] == (deps@[i as int].0@, deps@[i as int].1@));
                assert(inc@ == all[i as int]);
                assert(self.incs() =~= before.push(inc@));
                assert(start + all.take(i + 1) =~= (start + all.take(i as int)).push(all[i as int]));
            }
            i += 1;
        }
        assert(all.take(deps.len() as int) =~= all);
    }

    /// Takes in the metadata of `package` and decides its version: the
    /// highest version that the metadata lists is chosen, each requirement
    /// of the package whose marker holds becomes an incompatibility, and the
    /// decision enters the log. Where the metadata lists no version, that is
    /// a conflict, answered as [`Solver::resolve_conflict`] answers one: the
    /// last decision leaves the log with what followed it, at the price of
    /// one step, or the session fails. On any failure the session is as it
    /// was.
    pub fn supply(&mut self, package: &str, info: &PyPIPackageInfo) -> (r: Result<(), SolveError>)
        ensures
            old(self).solution.distinct() ==> final(self).solution.distinct(),
            (old(self).solution.decided())(package@) is None ==> match supplied(
                old(self).state(),
                old(self).env,
                package@,
                *info,
            ) {
                Ok(s) => r is Ok && final(self).state() == s,
                Err(e) => r matches Err(x) && fails_as(x, e),
            },
            final(self).root == old(self).root,
            final(self).root_version == old(self).root_version,
            final(self).env == old(self).env,
            old(self).incs().len() <= final(self).incs().len(),
            final(self).incs().take(old(self).incs().len() as int) == old(self).incs(),
            old(self).rooted() ==> final(self).rooted(),
            r is Err ==> *final(self) == *old(self),
            (old(self).solution.decided())(package@) is Some ==> (r matches Err(
                SolveError::Unexpected(name),
            ) && name@ == package@),
    {
        assert(self.incs().take(self.incs().len() as int) =~= self.incs());
        if self.solution.get_decision(package).is_some() {
            return Err(SolveError::Unexpected(string_of(&chars_of(package))));
        }
        let level = self.solution.decision_level();
        match best_version(info) {
            None => {
                let inc = make_no_version_incompatibility(package);
                if level <= 1 || self.budget == 0 {
                    let chain = self.related_causes(&inc);
                    return Err(SolveError::Unsolvable(UnsolvableConflict { conflict: inc, chain }));
                }
                self.budget = self.budget - 1;
                self.incompatibilities.push(inc);
                assert(self.incs() =~= old(self).incs().push(inc@));
                assert(self.incs().take(old(self).incs().len() as int) =~= old(self).incs());
                self.solution.backtrack(level - 1);
                proof {
                    if old(self).rooted() {
                        lemma_rooted_after_backtrack(
                            old(self).solution.log(),
                            old(self).solution.decided(),
                            self.solution.decided(),
                            self.root@,
                            self.root_version@,
                            (level - 1) as nat,
                        );
                    }
                    assert(self.solution.decided() =~= without_last_decision(
                        old(self).solution.log(),
                        old(self).solution.decided(),
                    ));
                }
                Ok(())
            },
            Some(version) => {
                let empty: Vec<String> = Vec::new();
                let reqs: &Vec<String> = match &info.info.requires_dist {
                    Some(v) => v,
                    None => &empty,
                };
                assert(texts(reqs@) =~= requirement_texts(*info));
                let deps = match dependencies_of(reqs, &self.env) {
                    Ok(d) => d,
                    Err(e) => {
                        return Err(SolveError::Parse(e));
                    },
                };
                self.learn(package, &version, &deps, false);
                assert(self.incs().take(old(self).incs().len() as int) =~= old(self).incs());
                let a = Assignment::Decision {
                    package: string_of(&chars_of(package)),
                    version,
                    decision_level: level,
                };
                self.solution.assign(a);
                proof {
                    if old(self).rooted() {
                        let before = old(self).solution.log();
                        let now = self.solution.log();
                        assert(now[0] == before[0]);
                        assert forall|p: int|
                            1 <= p < now.len() && (#[trigger] now[p]) is Decision implies now[p]->package
                            != self.root@ by {
                            if p < before.len() {
                                assert(now[p] == before[p]);
                            }
                        }
                    }
                    assert(self.solution.decided() =~= with_decision(
                        old(self).solution.decided(),
                        package@,
                        version@,
                    ));
                }
                Ok(())
            },
        }
    }

    /// Runs the session until it needs metadata or ends: propagation, and
    /// after each conflict the answer to it, until a pass without conflict;
    /// then the next package to decide is asked for, or, where there is
    /// none, the session is solved. Incompatibilities do not change. The
    /// state after the run and its outcome are those that [`advanced`]
    /// gives for the state before it.
    pub fn advance(&mut self) -> (r: Step)
        ensures
            old(self).solution.distinct() ==> final(self).solution.distinct(),
            forall|name: Seq<char>|
                (#[trigger] (final(self).solution.decided())(name)) is None || (
                final(self).solution.decided())(name) == (old(self).solution.decided())(name),
            advanced(old(self).state()).0 == final(self).state(),
            follows(r, final(self).state(), advanced(old(self).state()).1),
            final(self).root == old(self).root,
            final(self).root_version == old(self).root_version,
            final(self).env == old(self).env,
            final(self).incompatibilities == old(self).incompatibilities,
            final(self).budget <= old(self).budget,
            old(self).rooted() ==> final(self).rooted(),
            match r {
                Step::Solved => is_solved(final(self).solution.decided(), final(self).incs()),
                Step::Fetch(name) => {
                    &&& (final(self).solution.decided())(name@) is None
                    &&& exists|p: int| #[trigger]
                        is_candidate(final(self).solution.log(), final(self).solution.decided(), p)
                            && final(self).solution.log()[p]->term.package == name@
                    &&& forall|j: int|
                        0 <= j < final(self).incs().len() ==> !is_conflict(
                            final(self).solution.decided(),
                            #[trigger] final(self).incs()[j],
                        )
                },
                Step::Failed(u) => {
                    &&& exists|i: int|
                        0 <= i < final(self).incs().len() && u.conflict@ == (
                        #[trigger] final(self).incs()[i]) && is_conflict(
                            final(self).solution.decided(),
                            final(self).incs()[i],
                        )
                    &&& count_decisions(final(self).solution.log()) <= 1 || final(self).budget == 0
                    &&& incompatibility_views(u.chain@) == causal_chain(
                        final(self).solution.log(),
                        final(self).incs(),
                        u.conflict@,
                    )
                },
            },
    {
        loop
            invariant
                self.root == old(self).root,
                self.root_version == old(self).root_version,
                self.env == old(self).env,
                self.incompatibilities == old(self).incompatibilities,
                self.budget <= old(self).budget,
                old(self).rooted() ==> self.rooted(),
                old(self).solution.distinct() ==> self.solution.distinct(),
                forall|name: Seq<char>|
                    (#[trigger] (self.solution.decided())(name)) is None || (
                    self.solution.decided())(name) == (old(self).solution.decided())(name),
                advanced(self.state()) == advanced(old(self).state()),
            decreases self.budget,
        {
            let ghost d = self.solution.decided();
            let ghost known = self.incs();
            match self.propagate() {
                Some(conflict) => {
                    assert(self.solution.decided() == d);
                    match self.resolve_conflict(conflict) {
                        Ok(()) => {},
                        Err(u) => {
                            assert(u.conflict@ == self.incs()[conflict as int]);
                            return Step::Failed(u);
                        },
                    }
                },
                None => {
                    assert(self.solution.decided() == d);
                    assert(self.incs() == known);
                    assert forall|j: int| 0 <= j < known.len() implies settled(
                        self.solution.log(),
                        d,
                        #[trigger] known[j],
                    ) by {}
                    match self.choose_next_package() {
                        Some(name) => {
                            proof {
                                let log = self.solution.log();
                                let p = choose|p: int| #[trigger]
                                    is_candidate(log, d, p) && log[p]->term.package == name@;
                                assert((d)(name@) is None);
                                assert forall|j: int| 0 <= j < known.len() implies !is_conflict(
                                    d,
                                    #[trigger] known[j],
                                ) by {
                                    assert(settled(log, d, known[j]));
                                }
                            }
                            return Step::Fetch(name);
                        },
                        None => {
                            proof {
                                let log = self.solution.log();
                                let incs = self.incs();
                                assert forall|j: int| 0 <= j < incs.len() implies {
                                    &&& !is_conflict(d, #[trigger] incs[j])
                                    &&& forall|k: int| #[trigger]
                                        is_unit_at(d, incs[j], k) ==> incs[j].terms[k].positive
                                } by {
                                    assert(settled(log, d, incs[j]));
                                    assert forall|k: int| #[trigger]
                                        is_unit_at(d, incs[j], k) implies incs[j].terms[k].positive by {
                                        let t = negated(incs[j].terms[k]);
                                        assert(derived(log, t));
                                        let p = choose|p: int|
                                            0 <= p < log.len() && (#[trigger] log[p]) is Derivation
                                                && log[p]->term == t;
                                        if !incs[j].terms[k].positive {
                                            assert(is_candidate(log, d, p));
                                        }
                                    }
                                }
                            }
                            return Step::Solved;
                        },
                    }
                },
            }
        }
    }
}

// ---------------------------------------------------------------------------
// Solving against a table of metadata
// ---------------------------------------------------------------------------

/// Whether the error `x` reports the ending `e`.
pub open spec fn fails_as(x: SolveError, e: Ending) -> bool {
    match x {
        SolveError::Parse(pe) => e == Ending::Unreadable(pe),
        SolveError::PackageNotFound(name) => e == Ending::NotFound(name@),
        SolveError::Unsolvable(u) => e == Ending::Unsolvable(
            u.conflict@,
            incompatibility_views(u.chain@),
        ),
        SolveError::OutOfBudget => e == Ending::OutOfBudget,
        SolveError::Unexpected(_) => false,
    }
}

/// Whether the result `r` of a session reports the ending `e`. A success
/// is the table of the decided versions.
pub open spec fn ends_as(r: Result<Vec<(PackageName, Version)>, SolveError>, e: Ending) -> bool {
    match r {
        Ok(table) => e matches Ending::Solved(d) && forall|name: Seq<char>|
            lookup(table@, name) == #[trigger] d(name),
        Err(x) => fails_as(x, e),
    }
}

/// Whether the step `r`, taken in the state `s`, is the outcome `o`. A
/// failure carries the conflict and its causal chain.
pub open spec fn follows(r: Step, s: State, o: Outcome) -> bool {
    match r {
        Step::Fetch(name) => o == Outcome::Fetch(name@),
        Step::Solved => o == Outcome::Solved,
        Step::Failed(u) => {
            &&& o matches Outcome::Failed(i)
            &&& 0 <= i < s.incs.len()
            &&& u.conflict@ == s.incs[i]
            &&& incompatibility_views(u.chain@) == causal_chain(s.log, s.incs, s.incs[i])
        },
    }
}

/// Whether the table of metadata knows a package of the name.
pub open spec fn knows(registry: Seq<PyPIPackageInfo>, name: Seq<char>) -> bool {
    exists|i: int| 0 <= i < registry.len() && (#[trigger] registry[i]).info.name@ == name
}

/// The first entry of the table for the package `name`.
pub fn find_package<'a>(registry: &'a Vec<PyPIPackageInfo>, name: &str) -> (r: Option<
    &'a PyPIPackageInfo,
>)
    ensures
        match r {
            Some(info) => entry_from(registry@, name@, 0) == Some(*info),
            None => entry_from(registry@, name@, 0) is None,
        },
        match r {
            Some(info) => info.info.name@ == name@ && exists|i: int|
                0 <= i < registry@.len() && #[trigger] registry@[i] == *info && forall|j: int|
                    0 <= j < i ==> (#[trigger] registry@[j]).info.name@ != name@,
            None => !knows(registry@, name@),
        },
{
    let mut i: usize = 0;
    while i < registry.len()
        invariant
            i <= registry.len(),
            forall|j: int| 0 <= j < i ==> (#[trigger] registry@[j]).info.name@ != name@,
            entry_from(registry@, name@, i as int) == entry_from(registry@, name@, 0),
        decreases registry.len() - i,
    {
        if same_text(registry[i].info.name.as_str(), name) {
            assert(registry@[i as int] == registry[i as int]);
            return Some(&registry[i]);
        }
        i += 1;
    }
    None
}

/// Solving does not touch what is known already: a solved state is solved
/// for every prefix of its incompatibilities.
pub proof fn lemma_solved_prefix(decided: Decided, incs: Seq<IncompatibilityView>, n: int)
    requires
        0 <= n <= incs.len(),
        is_solved(decided, incs),
    ensures
        is_solved(decided, incs.take(n)),
{
    assert forall|j: int| 0 <= j < incs.take(n).len() implies {
        &&& !is_conflict(decided, #[trigger] incs.take(n)[j])
        &&& forall|k: int| #[trigger]
            is_unit_at(decided, incs.take(n)[j], k) ==> incs.take(n)[j].terms[k].positive
    } by {
        assert(incs.take(n)[j] == incs[j]);
    }
}

/// What holds of the outcome `r` of a solve session whose root has the
/// requirements `wanted`: see [`solve`].
pub open spec fn solve_outcome(
    wanted: Result<Seq<DependencyView>, ParseError>,
    root_name: Seq<char>,
    root_version: VersionView,
    registry: Seq<PyPIPackageInfo>,
    r: Result<Vec<(PackageName, Version)>, SolveError>,
) -> bool {
    match wanted {
        Err(e) => r matches Err(SolveError::Parse(x)) && x == e,
        Ok(deps) => match r {
            Ok(table) => {
                &&& lookup(table@, root_name) == Some(root_version)
                &&& forall|i: int|
                    0 <= i < deps.len() ==> is_met(
                        |name: Seq<char>| lookup(table@, name),
                        #[trigger] deps[i],
                    )
                &&& is_solved(
                    |name: Seq<char>| lookup(table@, name),
                    dependency_incompatibilities(root_name, root_version, deps, true),
                )
            },
            Err(SolveError::PackageNotFound(name)) => !knows(registry, name@),
            Err(SolveError::Unexpected(_)) => false,
            Err(_) => true,
        },
    }
}

impl Solver {
    /// Supplies the metadata that the table holds for `name`.
    fn feed(&mut self, registry: &Vec<PyPIPackageInfo>, name: PackageName) -> (r: Result<
        (),
        SolveError,
    >)
        requires
            (old(self).solution.decided())(name@) is None,
        ensures
            old(self).solution.distinct() ==> final(self).solution.distinct(),
            match fed(old(self).state(), registry@, old(self).env, name@) {
                Ok(s) => r is Ok && final(self).state() == s,
                Err(e) => r matches Err(x) && fails_as(x, e),
            },
            final(self).env == old(self).env,
            final(self).root == old(self).root,
            final(self).root_version == old(self).root_version,
            old(self).incs().len() <= final(self).incs().len(),
            final(self).incs().take(old(self).incs().len() as int) == old(self).incs(),
            old(self).rooted() ==> final(self).rooted(),
            match r {
                Ok(()) => true,
                Err(SolveError::PackageNotFound(n)) => !knows(registry@, n@),
                Err(SolveError::Unexpected(_)) => false,
                Err(_) => true,
            },
    {
        assert(self.incs().take(self.incs().len() as int) =~= self.incs());
        match find_package(registry, name.as_str()) {
            Some(info) => self.supply(name.as_str(), info),
            None => Err(SolveError::PackageNotFound(name)),
        }
    }
}

/// Whether the tables `a` and `b` hold the same entries in the same order.
pub open spec fn same_table(a: Seq<(PackageName, Version)>, b: Seq<(PackageName, Version)>) -> bool {
    &&& a.len() == b.len()
    &&& forall|i: int| 0 <= i < a.len() ==> (#[trigger] a[i]).0@ == b[i].0@ && a[i].1@ == b[i].1@
}

/// Tables with the same entries hold the same version for every name.
pub proof fn lemma_same_table(
    a: Seq<(PackageName, Version)>,
    b: Seq<(PackageName, Version)>,
    name: Seq<char>,
    i: int,
)
    requires
        same_table(a, b),
        0 <= i <= a.len(),
    ensures
        lookup_from(a, name, i) == lookup_from(b, name, i),
    decreases a.len() - i,
{
    if i < a.len() {
        assert(a[i].0@ == b[i].0@ && a[i].1@ == b[i].1@);
        lemma_same_table(a, b, name, i + 1);
    }
}

/// A copy of a table of decided versions.
fn clone_table(d: &Vec<(PackageName, Version)>) -> (r: Vec<(PackageName, Version)>)
    ensures
        same_table(r@, d@),
        distinct_names(d@) ==> distinct_names(r@),
        forall|name: Seq<char>| #[trigger] lookup(r@, name) == lookup(d@, name),
{
    let mut out: Vec<(PackageName, Version)> = Vec::new();
    let mut i: usize = 0;
    while i < d.len()
        invariant
            i <= d.len(),
            out@.len() == i,
            forall|j: int| 0 <= j < i ==> (#[trigger] out@[j]).0@ == d@[j].0@ && out@[j].1@ == d@[j].1@,
        decreases d.len() - i,
    {
        out.push((d[i].0.clone(), d[i].1.clone()));
        i += 1;
    }
    proof {
        assert forall|name: Seq<char>| #[trigger] lookup(out@, name) == lookup(d@, name) by {
            lemma_same_table(out@, d@, name, 0);
        }
        if distinct_names(d@) {
            assert forall|a: int, b: int| 0 <= a < b < out@.len() implies (#[trigger] out@[a]).0@ != (
            #[trigger] out@[b]).0@ by {
                assert(out@[a].0@ == d@[a].0@);
                assert(out@[b].0@ == d@[b].0@);
            }
        }
    }
    out
}

/// Whether `v` is the version that a session takes for the package `name`
/// from the table of metadata: the highest version that the first entry for
/// the name lists.
pub open spec fn chosen_from(registry: Seq<PyPIPackageInfo>, name: Seq<char>, v: VersionView) -> bool {
    entry_from(registry, name, 0) matches Some(info) && best_version_spec(release_keys(info))
        == Some(v)
}

/// Whether the table of metadata has an entry for the package `name` whose
/// requirements can all be read.
pub open spec fn readable_in(registry: Seq<PyPIPackageInfo>, env: TargetEnvironment, name: Seq<char>) -> bool {
    entry_from(registry, name, 0) matches Some(info) && stated_requirements(info, env) is Ok
}

/// The requirements of the package `name` whose marker holds in the
/// environment, as the table of metadata states them.
pub open spec fn needs_of(registry: Seq<PyPIPackageInfo>, env: TargetEnvironment, name: Seq<char>) -> Seq<
    DependencyView,
> {
    match entry_from(registry, name, 0) {
        Some(info) => match stated_requirements(info, env) {
            Ok(deps) => deps,
            Err(_) => Seq::empty(),
        },
        None => Seq::empty(),
    }
}

/// The incompatibility that says: `name` at `v` needs `dep`.
pub open spec fn need_of(name: Seq<char>, v: VersionView, dep: DependencyView) -> IncompatibilityView {
    dependency_incompatibility(name, v, dep, CauseView::Dependency(name, dep.0))
}

/// Whether the session has learned what `name` at `v` needs: `v` is the
/// version taken from the table of metadata, and each requirement of the
/// package is among the incompatibilities.
pub open spec fn taught_about(
    incs: Seq<IncompatibilityView>,
    registry: Seq<PyPIPackageInfo>,
    env: TargetEnvironment,
    name: Seq<char>,
    v: VersionView,
) -> bool {
    &&& chosen_from(registry, name, v)
    &&& readable_in(registry, env, name)
    &&& forall|k: int|
        0 <= k < needs_of(registry, env, name).len() ==> incs.contains(
            need_of(name, v, #[trigger] needs_of(registry, env, name)[k]),
        )
}

/// Whether the session has learned what each decided package other than
/// the root needs.
pub open spec fn taught(
    decided: Decided,
    incs: Seq<IncompatibilityView>,
    registry: Seq<PyPIPackageInfo>,
    env: TargetEnvironment,
    root: Seq<char>,
) -> bool {
    forall|name: Seq<char>|
        name != root && (#[trigger] decided(name)) is Some ==> taught_about(
            incs,
            registry,
            env,
            name,
            decided(name)->0,
        )
}

/// Whether the table of versions is complete and consistent below the
/// root: each package in it other than the root has the highest version
/// that the table of metadata lists for it, and every requirement of the
/// package whose marker holds is met, that is, the required package is in
/// the table with a version that the requirement allows.
pub open spec fn settled_table(
    table: Seq<(PackageName, Version)>,
    registry: Seq<PyPIPackageInfo>,
    env: TargetEnvironment,
    root: Seq<char>,
) -> bool {
    forall|name: Seq<char>|
        name != root && (#[trigger] lookup(table, name)) is Some ==> {
            &&& chosen_from(registry, name, lookup(table, name)->0)
            &&& readable_in(registry, env, name)
            &&& forall|k: int|
                0 <= k < needs_of(registry, env, name).len() ==> is_met(
                    |n: Seq<char>| lookup(table, n),
                    #[trigger] needs_of(registry, env, name)[k],
                )
        }
}

/// What a session has learned stays learned when incompatibilities are
/// added and decisions are taken back.
pub proof fn lemma_taught_stays(
    decided: Decided,
    later: Decided,
    incs: Seq<IncompatibilityView>,
    longer: Seq<IncompatibilityView>,
    registry: Seq<PyPIPackageInfo>,
    env: TargetEnvironment,
    root: Seq<char>,
)
    requires
        taught(decided, incs, registry, env, root),
        incs.len() <= longer.len(),
        longer.take(incs.len() as int) == incs,
        forall|name: Seq<char>| (#[trigger] later(name)) is None || later(name) == decided(name),
    ensures
        taught(later, longer, registry, env, root),
{
    assert forall|name: Seq<char>| name != root && (#[trigger] later(name)) is Some implies taught_about(
        longer,
        registry,
        env,
        name,
        later(name)->0,
    ) by {
        assert(decided(name) is Some);
        let v = decided(name)->0;
        assert(taught_about(incs, registry, env, name, v));
        let needs = needs_of(registry, env, name);
        assert forall|k: int| 0 <= k < needs.len() implies longer.contains(
            need_of(name, v, #[trigger] needs[k]),
        ) by {
            let inc = need_of(name, v, needs[k]);
            assert(incs.contains(inc));
            let j = choose|j: int| 0 <= j < incs.len() && incs[j] == inc;
            assert(longer.take(incs.len() as int)[j] == longer[j]);
        }
    }
}

/// In a solved state every requirement that the session has learned of a
/// decided package is met.
pub proof fn lemma_taught_and_solved(
    decided: Decided,
    incs: Seq<IncompatibilityView>,
    registry: Seq<PyPIPackageInfo>,
    env: TargetEnvironment,
    root: Seq<char>,
    name: Seq<char>,
    k: int,
)
    requires
        taught(decided, incs, registry, env, root),
        is_solved(decided, incs),
        name != root,
        decided(name) is Some,
        0 <= k < needs_of(registry, env, name).len(),
    ensures
        is_met(decided, needs_of(registry, env, name)[k]),
{
    let v = decided(name)->0;
    let dep = needs_of(registry, env, name)[k];
    assert(taught_about(incs, registry, env, name, v));
    let inc = need_of(name, v, dep);
    assert(incs.contains(inc));
    let j = choose|j: int| 0 <= j < incs.len() && incs[j] == inc;
    assert(!is_conflict(decided, incs[j]));
    lemma_requirement_met(decided, name, v, dep, CauseView::Dependency(name, dep.0));
}

/// Taking in the metadata of a package keeps what the session has learned,
/// and where the package gets a version, the session has learned what the
/// package needs at that version.
pub proof fn lemma_taught_after_feed(
    s: State,
    t: State,
    registry: Seq<PyPIPackageInfo>,
    env: TargetEnvironment,
    root: Seq<char>,
    name: Seq<char>,
)
    requires
        taught(s.decided, s.incs, registry, env, root),
        fed(s, registry, env, name) == Ok::<State, Ending>(t),
    ensures
        taught(t.decided, t.incs, registry, env, root),
{
    let info = entry_from(registry, name, 0)->0;
    match best_version_spec(release_keys(info)) {
        Some(v) => {
            let deps = stated_requirements(info, env)->Ok_0;
            let added = dependency_incompatibilities(name, v, deps, false);
            assert(t.incs == s.incs + added);
            assert(t.incs.take(s.incs.len() as int) =~= s.incs);
            assert forall|n: Seq<char>| n != root && (#[trigger] (t.decided)(n)) is Some implies taught_about(
                t.incs,
                registry,
                env,
                n,
                (t.decided)(n)->0,
            ) by {
                if n == name {
                    assert((t.decided)(n) == Some(v));
                    assert(needs_of(registry, env, n) == deps);
                    assert forall|k: int| 0 <= k < deps.len() implies t.incs.contains(
                        need_of(n, v, #[trigger] deps[k]),
                    ) by {
                        assert(t.incs[s.incs.len() + k] == added[k]);
                        assert(added[k] == need_of(n, v, deps[k]));
                    }
                } else {
                    assert((t.decided)(n) == (s.decided)(n));
                    let w = (s.decided)(n)->0;
                    assert(taught_about(s.incs, registry, env, n, w));
                    let needs = needs_of(registry, env, n);
                    assert forall|k: int| 0 <= k < needs.len() implies t.incs.contains(
                        need_of(n, w, #[trigger] needs[k]),
                    ) by {
                        let inc = need_of(n, w, needs[k]);
                        assert(s.incs.contains(inc));
                        let j = choose|j: int| 0 <= j < s.incs.len() && s.incs[j] == inc;
                        assert(t.incs[j] == s.incs[j]);
                    }
                }
            }
        },
        None => {
            let pushed = s.incs.push(no_version_incompatibility(name));
            assert(t.incs == pushed);
            assert(pushed.take(s.incs.len() as int) =~= s.incs);
            lemma_taught_stays(s.decided, t.decided, s.incs, t.incs, registry, env, root);
        },
    }
}

/// A package that a requirement of the root or of a package of a settled
/// table names is in the table, at the highest version that the table of
/// metadata lists for it: the latest version wins.
pub proof fn lemma_latest_wins(
    table: Seq<(PackageName, Version)>,
    registry: Seq<PyPIPackageInfo>,
    env: TargetEnvironment,
    root: Seq<char>,
    dep: DependencyView,
)
    requires
        settled_table(table, registry, env, root),
        is_met(|n: Seq<char>| lookup(table, n), dep),
        dep.0 != root,
    ensures
        lookup(table, dep.0) matches Some(v) && chosen_from(registry, dep.0, v) && allows_spec(
            dep.1,
            v,
        ),
{
    assert(lookup(table, dep.0) is Some);
}

/// No settled table holds two packages with requirements on one package
/// that no version meets both: where each of two requirements is met, one
/// version is allowed by both.
pub proof fn lemma_clashing_needs(
    table: Seq<(PackageName, Version)>,
    registry: Seq<PyPIPackageInfo>,
    env: TargetEnvironment,
    root: Seq<char>,
    a: Seq<char>,
    b: Seq<char>,
    i: int,
    j: int,
)
    requires
        settled_table(table, registry, env, root),
        a != root,
        b != root,
        lookup(table, a) is Some,
        lookup(table, b) is Some,
        0 <= i < needs_of(registry, env, a).len(),
        0 <= j < needs_of(registry, env, b).len(),
        needs_of(registry, env, a)[i].0 == needs_of(registry, env, b)[j].0,
    ensures
        exists|w: VersionView|
            allows_spec(needs_of(registry, env, a)[i].1, w) && #[trigger] allows_spec(
                needs_of(registry, env, b)[j].1,
                w,
            ),
{
    let d = |n: Seq<char>| lookup(table, n);
    let x = needs_of(registry, env, a)[i];
    let y = needs_of(registry, env, b)[j];
    assert(is_met(d, x));
    assert(is_met(d, y));
    let w = lookup(table, x.0)->0;
    assert(allows_spec(x.1, w) && allows_spec(y.1, w));
}

/// Two exact requirements on versions that do not compare equal allow no
/// common version.
pub proof fn lemma_exact_versions_clash(x: VersionView, y: VersionView, w: VersionView)
    requires
        version_order(x, y) != 0,
    ensures
        !(allows_spec(ConstraintView::Exact(x), w) && allows_spec(ConstraintView::Exact(y), w)),
{
    crate::constraint::lemma_equal_to_both(x, y, w);
}

/// A session whose root requires two packages that need one package at
/// exact versions which do not compare equal does not succeed: whatever
/// [`solve`] returns for it is a failure.
pub proof fn lemma_conflict_has_no_table(
    r: Result<Vec<(PackageName, Version)>, SolveError>,
    wanted: Seq<DependencyView>,
    root: Seq<char>,
    root_version: VersionView,
    registry: Seq<PyPIPackageInfo>,
    env: TargetEnvironment,
    p: int,
    q: int,
    i: int,
    j: int,
)
    requires
        solve_outcome(
            Ok::<Seq<DependencyView>, ParseError>(wanted),
            root,
            root_version,
            registry,
            r,
        ),
        r matches Ok(table) ==> settled_table(table@, registry, env, root),
        0 <= p < wanted.len(),
        0 <= q < wanted.len(),
        wanted[p].0 != root,
        wanted[q].0 != root,
        0 <= i < needs_of(registry, env, wanted[p].0).len(),
        0 <= j < needs_of(registry, env, wanted[q].0).len(),
        needs_of(registry, env, wanted[p].0)[i].0 == needs_of(registry, env, wanted[q].0)[j].0,
        needs_of(registry, env, wanted[p].0)[i].1 matches ConstraintView::Exact(x) && needs_of(
            registry,
            env,
            wanted[q].0,
        )[j].1 matches ConstraintView::Exact(y) && version_order(x, y) != 0,
    ensures
        r is Err,
{
    if r is Ok {
        let table = r->Ok_0@;
        let d = |n: Seq<char>| lookup(table, n);
        assert(is_met(d, wanted[p]));
        assert(is_met(d, wanted[q]));
        lemma_clashing_needs(table, registry, env, root, wanted[p].0, wanted[q].0, i, j);
        let x = needs_of(registry, env, wanted[p].0)[i].1->Exact_0;
        let y = needs_of(registry, env, wanted[q].0)[j].1->Exact_0;
        let w = choose|w: VersionView|
            allows_spec(needs_of(registry, env, wanted[p].0)[i].1, w) && #[trigger] allows_spec(
                needs_of(registry, env, wanted[q].0)[j].1,
                w,
            );
        lemma_exact_versions_clash(x, y, w);
    }
}

/// What holds of the outcome `r` of a session that opened with the
/// incompatibilities `known`: a success is a table that holds the root at
/// its version and leaves nothing to do for `known`, and a package is
/// reported as not found only where the table of metadata does not know it.
pub open spec fn sound_outcome(
    known: Seq<IncompatibilityView>,
    root_name: Seq<char>,
    root_version: VersionView,
    registry: Seq<PyPIPackageInfo>,
    r: Result<Vec<(PackageName, Version)>, SolveError>,
) -> bool {
    match r {
        Ok(table) => {
            &&& lookup(table@, root_name) == Some(root_version)
            &&& is_solved(|name: Seq<char>| lookup(table@, name), known)
        },
        Err(SolveError::PackageNotFound(name)) => !knows(registry, name@),
        Err(SolveError::Unexpected(_)) => false,
        Err(_) => true,
    }
}

impl Solver {
    /// Runs the session to its end with the metadata of `registry`: the
    /// root package is decided, and then propagation, backtracking and
    /// decisions follow each other until every package that needs a
    /// version has one, or none can be found. The session may decide
    /// `steps` versions: beyond that it gives up with `OutOfBudget`.
    ///
    /// What comes back is the ending that [`ran`] gives from the opened
    /// state. In a session that had no assignments, a success is a table
    /// that holds the root at its version and leaves nothing to do for the
    /// incompatibilities that the session began with. In a session that
    /// had no decided versions either, each package of the table other
    /// than the root has the highest version that the registry lists for
    /// it, and every requirement of the package whose marker holds is met
    /// ([`settled_table`]). Where the session held each package once, so
    /// does the table.
    pub fn solve(&mut self, registry: &Vec<PyPIPackageInfo>, steps: usize) -> (r: Result<
        Vec<(PackageName, Version)>,
        SolveError,
    >)
        ensures
            ends_as(
                r,
                ran(
                    opened(old(self).state(), old(self).root@, old(self).root_version@),
                    registry@,
                    old(self).env,
                    steps as nat,
                ),
            ),
            old(self).solution.distinct() ==> (r matches Ok(table) ==> distinct_names(table@)),
            old(self).solution.log().len() == 0 ==> sound_outcome(
                old(self).incs(),
                old(self).root@,
                old(self).root_version@,
                registry@,
                r,
            ),
            old(self).blank() ==> (r matches Ok(table) ==> settled_table(
                table@,
                registry@,
                old(self).env,
                old(self).root@,
            )),
    {
        let ghost known = self.incs();
        let ghost blank = self.blank();
        let ghost fresh = self.solution.log().len() == 0;
        let ghost goal = ran(
            opened(self.state(), self.root@, self.root_version@),
            registry@,
            self.env,
            steps as nat,
        );
        assert(self.incs().take(known.len() as int) =~= known);
        self.start();
        proof {
            assert(self.solution.decided() =~= with_decision(
                old(self).solution.decided(),
                self.root@,
                self.root_version@,
            ));
            assert(self.state() == opened(old(self).state(), self.root@, self.root_version@));
            if fresh {
                assert(self.rooted());
            }
            if blank {
                assert(taught(
                    self.solution.decided(),
                    self.incs(),
                    registry@,
                    self.env,
                    self.root@,
                ));
            }
        }
        let mut left: usize = steps;
        loop
            invariant
                fresh ==> self.rooted(),
                blank ==> fresh,
                blank == old(self).blank(),
                blank ==> taught(
                    self.solution.decided(),
                    self.incs(),
                    registry@,
                    self.env,
                    self.root@,
                ),
                old(self).solution.distinct() ==> self.solution.distinct(),
                self.root == old(self).root,
                self.root_version == old(self).root_version,
                self.env == old(self).env,
                known == old(self).incs(),
                fresh == (old(self).solution.log().len() == 0),
                known.len() <= self.incs().len(),
                self.incs().take(known.len() as int) == known,
                ran(self.state(), registry@, self.env, left as nat) == goal,
                goal == ran(
                    opened(old(self).state(), old(self).root@, old(self).root_version@),
                    registry@,
                    old(self).env,
                    steps as nat,
                ),
            decreases left,
        {
            let ghost d0 = self.solution.decided();
            let ghost incs0 = self.incs();
            let step = self.advance();
            proof {
                if blank {
                    assert(self.incs() == incs0);
                    assert(incs0.take(incs0.len() as int) =~= incs0);
                    lemma_taught_stays(
                        d0,
                        self.solution.decided(),
                        incs0,
                        self.incs(),
                        registry@,
                        self.env,
                        self.root@,
                    );
                }
            }
            match step {
                Step::Solved => {
                    let table = clone_table(&self.solution.decisions);
                    proof {
                        let d = self.solution.decided();
                        let t = |name: Seq<char>| lookup(table@, name);
                        assert(t =~= d);
                        lemma_solved_prefix(d, self.incs(), known.len() as int);
                        if blank {
                            assert forall|name: Seq<char>|
                                name != self.root@ && (#[trigger] lookup(table@, name)) is Some implies {
                                &&& chosen_from(registry@, name, lookup(table@, name)->0)
                                &&& readable_in(registry@, self.env, name)
                                &&& forall|k: int|
                                    0 <= k < needs_of(registry@, self.env, name).len() ==> is_met(
                                        |n: Seq<char>| lookup(table@, n),
                                        #[trigger] needs_of(registry@, self.env, name)[k],
                                    )
                            } by {
                                assert(d(name) is Some);
                                assert(taught_about(
                                    self.incs(),
                                    registry@,
                                    self.env,
                                    name,
                                    d(name)->0,
                                ));
                                assert forall|k: int|
                                    0 <= k < needs_of(registry@, self.env, name).len() implies is_met(
                                    t,
                                    #[trigger] needs_of(registry@, self.env, name)[k],
                                ) by {
                                    lemma_taught_and_solved(
                                        d,
                                        self.incs(),
                                        registry@,
                                        self.env,
                                        self.root@,
                                        name,
                                        k,
                                    );
                                }
                            }
                        }
                    }
                    return Ok(table);
                },
                Step::Failed(u) => {
                    return Err(SolveError::Unsolvable(u));
                },
                Step::Fetch(name) => {
                    if left == 0 {
                        return Err(SolveError::OutOfBudget);
                    }
                    left = left - 1;
                    let ghost before = self.incs();
                    let ghost d1 = self.solution.decided();
                    let ghost wanted = name@;
                    let ghost s1 = self.state();
                    match self.feed(registry, name) {
                        Ok(()) => {
                            assert(self.incs().take(known.len() as int) =~= before.take(
                                known.len() as int,
                            ));
                            proof {
                                if blank {
                                    lemma_taught_after_feed(
                                        s1,
                                        self.state(),
                                        registry@,
                                        self.env,
                                        self.root@,
                                        wanted,
                                    );
                                }
                            }
                        },
                        Err(e) => {
                            return Err(e);
                        },
                    }
                },
            }
        }
    }
}

/// Finds versions for the root package's requirements and all that they
/// need, with the metadata of `registry`. The session may backtrack `budget`
/// times, and decide `steps` versions: beyond that it gives up with
/// `OutOfBudget`.
///
/// The root's requirements are read first; one that cannot be read fails
/// the whole. A success yields the table of decided versions. It holds the
/// root at its version and meets every requirement of the root whose
/// marker holds: the required package has a version, which the requirement
/// allows. Each other package of the table has the highest version that
/// the registry lists for it, and every requirement of that package whose
/// marker holds is met likewise ([`settled_table`]). No package is in the
/// table twice. A package that the registry does not know fails the
/// session with `PackageNotFound`. What comes back is the ending that
/// [`solved`] gives for these arguments, so it is determined by them.
pub fn solve(
    root_name: &str,
    root_version: Version,
    requirements: &Vec<String>,
    registry: &Vec<PyPIPackageInfo>,
    env: TargetEnvironment,
    budget: usize,
    steps: usize,
) -> (r: Result<Vec<(PackageName, Version)>, SolveError>)
    ensures
        ends_as(
            r,
            solved(
                root_name@,
                root_version@,
                texts(requirements@),
                registry@,
                env,
                budget as nat,
                steps as nat,
            ),
        ),
        solve_outcome(
            dependencies_spec(
                texts(requirements@),
                env.python_version@,
                env.sys_platform@,
                env.platform_system@,
            ),
            root_name@,
            root_version@,
            registry@,
            r,
        ),
        r matches Ok(table) ==> distinct_names(table@),
        r matches Ok(table) ==> settled_table(table@, registry@, env, root_name@),
{
    let deps = match dependencies_of(requirements, &env) {
        Ok(d) => d,
        Err(e) => {
            return Err(SolveError::Parse(e));
        },
    };
    let own = string_of(&chars_of(root_name));
    let mut solver = Solver::new(own, root_version, env, budget);
    solver.learn(root_name, &root_version_of(&solver), &deps, true);
    let ghost roots = dependency_incompatibilities(
        root_name@,
        root_version@,
        dependency_views(deps@),
        true,
    );
    proof {
        assert(solver.incs() =~= roots);
        let first = opening(root_name@, root_version@, dependency_views(deps@), budget as nat);
        let begun = opened(solver.state(), root_name@, root_version@);
        assert(begun.log =~= first.log);
        assert(begun.decided =~= first.decided);
        assert(begun == first);
    }
    let r = solver.solve(registry, steps);
    proof {
        if r is Ok {
            let table = r->Ok_0;
            let d = |name: Seq<char>| lookup(table@, name);
            let deps_v = dependency_views(deps@);
            assert forall|i: int| 0 <= i < deps_v.len() implies is_met(d, #[trigger] deps_v[i]) by {
                assert(roots[i] == dependency_incompatibility(
                    root_name@,
                    root_version@,
                    deps_v[i],
                    CauseView::Root,
                ));
                lemma_requirement_met(d, root_name@, root_version@, deps_v[i], CauseView::Root);
            }
        }
    }
    r
}

/// A copy of the version of the session's root package.
fn root_version_of(solver: &Solver) -> (r: Version)
    ensures
        r@ == solver.root_version@,
{
    solver.root_version.clone()
}

// ---------------------------------------------------------------------------
// Explanations
// ---------------------------------------------------------------------------

/// The constraint of a requirement in words, in parentheses; nothing for
/// an incompatibility with fewer than two terms.
pub open spec fn requirement_note(inc: IncompatibilityView) -> Seq<char> {
    if inc.terms.len() >= 2 {
        " ("@ + describe_spec(inc.terms[1].constraint) + ")"@
    } else {
        Seq::empty()
    }
}

/// The package of the term at `k`; nothing where there is no such term.
pub open spec fn package_at(inc: IncompatibilityView, k: int) -> Seq<char> {
    if 0 <= k < inc.terms.len() {
        inc.terms[k].package
    } else {
        Seq::empty()
    }
}

/// An incompatibility in words, by its cause: `A requires B (X)`, `the
/// root requires B (X)`, `B has no version`, or `conflict`.
pub open spec fn explain_spec(inc: IncompatibilityView) -> Seq<char> {
    match inc.cause {
        CauseView::Dependency(a, b) => a + " requires "@ + b + requirement_note(inc),
        CauseView::Root => "the root requires "@ + package_at(inc, 1) + requirement_note(inc),
        CauseView::NoVersion => package_at(inc, 0) + " has no version"@,
        CauseView::Conflict => "conflict"@,
    }
}

/// A failure in words: the incompatibilities of the chain and then the
/// conflict, each in words, with `; ` between them, and the conclusion.
pub open spec fn explanation_spec(
    chain: Seq<IncompatibilityView>,
    conflict: IncompatibilityView,
) -> Seq<char> {
    join(
        Seq::new(
            chain.len() + 1,
            |k: int|
                if k < chain.len() {
                    explain_spec(chain[k])
                } else {
                    explain_spec(conflict)
                },
        ),
        "; "@,
    ) + "; therefore no assignment exists"@
}

impl Incompatibility {
    /// The incompatibility in words, by its cause.
    pub fn explain(&self) -> (r: String)
        ensures
            r@ == explain_spec(self@),
    {
        string_of(&self.explain_chars())
    }

    fn explain_chars(&self) -> (r: Vec<char>)
        ensures
            r@ == explain_spec(self@),
    {
        let mut out: Vec<char> = Vec::new();
        let mut note: Vec<char> = Vec::new();
        if self.terms.len() >= 2 {
            assert(self@.terms[1] == self.terms[1]@);
            push_str(&mut note, " (");
            push_str(&mut note, self.terms[1].constraint.describe().as_str());
            push_str(&mut note, ")");
            assert(note@ =~= requirement_note(self@));
        } else {
            assert(note@ =~= requirement_note(self@));
        }
        match &self.cause {
            IncompatibilityCause::Dependency(a, b) => {
                push_str(&mut out, a.as_str());
                push_str(&mut out, " requires ");
                push_str(&mut out, b.as_str());
                crate::text::push_range(&mut out, &note, 0, note.len());
                assert(note@.subrange(0, note.len() as int) =~= note@);
                assert(out@ =~= a@ + " requires "@ + b@ + requirement_note(self@));
            },
            IncompatibilityCause::Root => {
                push_str(&mut out, "the root requires ");
                if self.terms.len() >= 2 {
                    assert(self@.terms[1] == self.terms[1]@);
                    push_str(&mut out, self.terms[1].package.as_str());
                }
                assert(out@ =~= "the root requires "@ + package_at(self@, 1));
                crate::text::push_range(&mut out, &note, 0, note.len());
                assert(note@.subrange(0, note.len() as int) =~= note@);
                assert(out@ =~= "the root requires "@ + package_at(self@, 1) + requirement_note(
                    self@,
                ));
            },
            IncompatibilityCause::NoVersion => {
                if self.terms.len() >= 1 {
                    assert(self@.terms[0] == self.terms[0]@);
                    push_str(&mut out, self.terms[0].package.as_str());
                }
                assert(out@ =~= package_at(self@, 0));
                push_str(&mut out, " has no version");
                assert(out@ =~= package_at(self@, 0) + " has no version"@);
            },
            IncompatibilityCause::Conflict => {
                push_str(&mut out, "conflict");
                assert(out@ =~= "conflict"@);
            },
        }
        out
    }
}

impl UnsolvableConflict {
    /// The failure in words: what each incompatibility of the causal chain
    /// says, then what the conflict says, and the conclusion.
    pub fn explanation(&self) -> (r: String)
        ensures
            r@ == explanation_spec(incompatibility_views(self.chain@), self.conflict@),
    {
        let ghost chain = incompatibility_views(self.chain@);
        let mut parts: Vec<Vec<char>> = Vec::new();
        let mut i: usize = 0;
        while i < self.chain.len()
            invariant
                i <= self.chain.len(),
                chain == incompatibility_views(self.chain@),
                parts.len() == i,
                forall|k: int| 0 <= k < i ==> (#[trigger] parts[k])@ == explain_spec(chain[k]),
            decreases self.chain.len() - i,
        {
            assert(chain[i as int] == self.chain[i as int]@);
            parts.push(self.chain[i].explain_chars());
            i += 1;
        }
        parts.push(self.conflict.explain_chars());
        let mut out: Vec<char> = Vec::new();
        push_joined(&mut out, &parts, "; ");
        push_str(&mut out, "; therefore no assignment exists");
        proof {
            let texts = Seq::new(
                chain.len() + 1,
                |k: int|
                    if k < chain.len() {
                        explain_spec(chain[k])
                    } else {
                        explain_spec(self.conflict@)
                    },
            );
            assert(rows(parts@) =~= texts);
            assert(out@ =~= explanation_spec(chain, self.conflict@));
        }
        string_of(&out)
    }
}

} // verus!
