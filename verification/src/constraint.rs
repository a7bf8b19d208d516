//! Version constraints: an algebra of sets of versions, built from exact
//! versions and half-open ranges by union, intersection and complement.

use crate::pep440::{
    format_spec, lemma_version_order_antisymmetric, lemma_version_order_transitive, parse_spec,
    version_order, ParseError, Version, VersionView,
};
use crate::text::{
    chars_of, is_pair, push_joined, push_str, rows, string_of,
};
use vstd::prelude::*;

verus! {

/// A set of versions.
#[derive(Debug)]
pub enum Constraint {
    /// Every version.
    Any,
    /// The versions that compare equal to this one, whatever their
    /// segments: `1.0` and `1.0.0` are one version.
    Exact(Version),
    /// The versions from the first (inclusive) up to the second (exclusive).
    Range(Version, Version),
    /// The versions that one of the members allows.
    Union(Vec<Constraint>),
    /// The versions that all of the members allow.
    Intersection(Vec<Constraint>),
    /// The versions that the member does not allow.
    Not(Box<Constraint>),
}

/// The mathematical value of a [`Constraint`].
pub enum ConstraintView {
    Any,
    Exact(VersionView),
    Range(VersionView, VersionView),
    Union(Seq<ConstraintView>),
    Intersection(Seq<ConstraintView>),
    Not(Box<ConstraintView>),
}

impl Constraint {
    /// The value of the constraint, member by member.
    pub open spec fn model(&self) -> ConstraintView
        decreases self,
    {
        match self {
            Constraint::Any => ConstraintView::Any,
            Constraint::Exact(v) => ConstraintView::Exact(v@),
            Constraint::Range(lo, hi) => ConstraintView::Range(lo@, hi@),
            Constraint::Union(cs) => ConstraintView::Union(
                Seq::new(
                    cs.len() as nat,
                    |i: int|
                        if 0 <= i < cs.len() {
                            cs[i].model()
                        } else {
                            ConstraintView::Any
                        },
                ),
            ),
            Constraint::Intersection(cs) => ConstraintView::Intersection(
                Seq::new(
                    cs.len() as nat,
                    |i: int|
                        if 0 <= i < cs.len() {
                            cs[i].model()
                        } else {
                            ConstraintView::Any
                        },
                ),
            ),
            Constraint::Not(c) => ConstraintView::Not(Box::new(c.model())),
        }
    }
}

impl View for Constraint {
    type V = ConstraintView;

    open spec fn view(&self) -> ConstraintView {
        self.model()
    }
}

/// The values of a sequence of constraints.
pub open spec fn models(cs: Seq<Constraint>) -> Seq<ConstraintView> {
    Seq::new(cs.len(), |i: int| cs[i]@)
}

/// Whether the constraint `c` allows the version `v`.
pub open spec fn allows_spec(c: ConstraintView, v: VersionView) -> bool
    decreases c,
{
    match c {
        ConstraintView::Any => true,
        ConstraintView::Exact(e) => version_order(e, v) == 0,
        ConstraintView::Range(lo, hi) => version_order(lo, v) <= 0 && version_order(v, hi) < 0,
        ConstraintView::Union(cs) => exists|i: int|
            0 <= i < cs.len() && allows_spec(#[trigger] cs[i], v),
        ConstraintView::Intersection(cs) => forall|i: int|
            0 <= i < cs.len() ==> allows_spec(#[trigger] cs[i], v),
        ConstraintView::Not(inner) => !allows_spec(*inner, v),
    }
}

/// What intersecting `a` with `b` yields: the other one where one is `Any`;
/// for two exact versions the first where the two compare equal and the
/// empty union where they do not; otherwise one
/// intersection, into which a side that is an intersection already is
/// flattened.
pub open spec fn intersect_spec(a: ConstraintView, b: ConstraintView) -> ConstraintView {
    match (a, b) {
        (ConstraintView::Any, _) => b,
        (_, ConstraintView::Any) => a,
        (ConstraintView::Exact(x), ConstraintView::Exact(y)) => if version_order(x, y) == 0 {
            a
        } else {
            ConstraintView::Union(Seq::empty())
        },
        (ConstraintView::Intersection(x), ConstraintView::Intersection(y)) => {
            ConstraintView::Intersection(x + y)
        },
        (_, ConstraintView::Intersection(y)) => ConstraintView::Intersection(y.push(a)),
        (ConstraintView::Intersection(x), _) => ConstraintView::Intersection(x.push(b)),
        _ => ConstraintView::Intersection(seq![a, b]),
    }
}

/// An intersection allows what all its members allow.
pub proof fn lemma_allows_intersection(cs: Seq<ConstraintView>, v: VersionView)
    ensures
        allows_spec(ConstraintView::Intersection(cs), v) == (forall|i: int|
            0 <= i < cs.len() ==> allows_spec(#[trigger] cs[i], v)),
{
    let c = ConstraintView::Intersection(cs);
    assert(c->Intersection_0 == cs);
    if allows_spec(c, v) {
        assert forall|i: int| 0 <= i < cs.len() implies allows_spec(#[trigger] cs[i], v) by {
            assert(allows_spec(c->Intersection_0[i], v));
        }
    }
    if forall|i: int| 0 <= i < cs.len() ==> allows_spec(#[trigger] cs[i], v) {
        assert(allows_spec(c, v));
    }
}

/// A union allows what one of its members allows.
pub proof fn lemma_allows_union(cs: Seq<ConstraintView>, v: VersionView)
    ensures
        allows_spec(ConstraintView::Union(cs), v) == (exists|i: int|
            0 <= i < cs.len() && allows_spec(#[trigger] cs[i], v)),
{
    let c = ConstraintView::Union(cs);
    assert(c->Union_0 == cs);
    if allows_spec(c, v) {
        let i = choose|i: int| 0 <= i < cs.len() && allows_spec(#[trigger] c->Union_0[i], v);
        assert(allows_spec(cs[i], v));
    }
    if exists|i: int| 0 <= i < cs.len() && allows_spec(#[trigger] cs[i], v) {
        let i = choose|i: int| 0 <= i < cs.len() && allows_spec(#[trigger] cs[i], v);
        assert(allows_spec(c->Union_0[i], v));
    }
}

/// Versions that compare equal to one version compare equal to each other,
/// and a version that compares equal to one of two equal versions compares
/// equal to the other.
pub proof fn lemma_equal_to_both(x: VersionView, y: VersionView, v: VersionView)
    ensures
        version_order(x, v) == 0 && version_order(y, v) == 0 ==> version_order(x, y) == 0,
        version_order(x, y) == 0 ==> (version_order(x, v) == 0) == (version_order(y, v) == 0),
{
    lemma_version_order_antisymmetric(x, y);
    lemma_version_order_antisymmetric(x, v);
    lemma_version_order_antisymmetric(y, v);
    if version_order(x, v) == 0 && version_order(y, v) == 0 {
        lemma_version_order_transitive(x, v, y);
        lemma_version_order_transitive(y, v, x);
    }
    if version_order(x, y) == 0 && version_order(x, v) == 0 {
        lemma_version_order_transitive(y, x, v);
        lemma_version_order_transitive(v, x, y);
    }
    if version_order(x, y) == 0 && version_order(y, v) == 0 {
        lemma_version_order_transitive(x, y, v);
        lemma_version_order_transitive(v, y, x);
    }
}

/// Intersecting two constraints yields a constraint that allows exactly the
/// versions that both allow.
pub proof fn lemma_intersect_allows(a: ConstraintView, b: ConstraintView, v: VersionView)
    ensures
        allows_spec(intersect_spec(a, b), v) == (allows_spec(a, v) && allows_spec(b, v)),
{
    let r = intersect_spec(a, b);
    match (a, b) {
        (ConstraintView::Any, _) => {},
        (_, ConstraintView::Any) => {},
        (ConstraintView::Exact(x), ConstraintView::Exact(y)) => {
            lemma_allows_union(Seq::empty(), v);
            lemma_equal_to_both(x, y, v);
        },
        (ConstraintView::Intersection(x), ConstraintView::Intersection(y)) => {
            let z = x + y;
            assert(r == ConstraintView::Intersection(z));
            lemma_allows_intersection(x, v);
            lemma_allows_intersection(y, v);
            lemma_allows_intersection(z, v);
            if allows_spec(a, v) && allows_spec(b, v) {
                assert forall|i: int| 0 <= i < z.len() implies allows_spec(#[trigger] z[i], v) by {
                    if i < x.len() {
                        assert(z[i] == x[i]);
                    } else {
                        assert(z[i] == y[i - x.len()]);
                    }
                }
            }
            if allows_spec(r, v) {
                assert forall|i: int| 0 <= i < x.len() implies allows_spec(#[trigger] x[i], v) by {
                    assert(z[i] == x[i]);
                }
                assert forall|i: int| 0 <= i < y.len() implies allows_spec(#[trigger] y[i], v) by {
                    assert(z[i + x.len()] == y[i]);
                }
            }
        },
        (_, ConstraintView::Intersection(y)) => {
            let z = y.push(a);
            assert(r == ConstraintView::Intersection(z));
            lemma_allows_intersection(y, v);
            lemma_allows_intersection(z, v);
            if allows_spec(a, v) && allows_spec(b, v) {
                assert forall|i: int| 0 <= i < z.len() implies allows_spec(#[trigger] z[i], v) by {
                    if i < y.len() {
                        assert(z[i] == y[i]);
                    }
                }
            }
            if allows_spec(r, v) {
                assert(z[y.len() as int] == a);
                assert forall|i: int| 0 <= i < y.len() implies allows_spec(#[trigger] y[i], v) by {
                    assert(z[i] == y[i]);
                }
            }
        },
        (ConstraintView::Intersection(x), _) => {
            let z = x.push(b);
            assert(r == ConstraintView::Intersection(z));
            lemma_allows_intersection(x, v);
            lemma_allows_intersection(z, v);
            if allows_spec(a, v) && allows_spec(b, v) {
                assert forall|i: int| 0 <= i < z.len() implies allows_spec(#[trigger] z[i], v) by {
                    if i < x.len() {
                        assert(z[i] == x[i]);
                    }
                }
            }
            if allows_spec(r, v) {
                assert(z[x.len() as int] == b);
                assert forall|i: int| 0 <= i < x.len() implies allows_spec(#[trigger] x[i], v) by {
                    assert(z[i] == x[i]);
                }
            }
        },
        _ => {
            let z = seq![a, b];
            assert(r == ConstraintView::Intersection(z));
            lemma_allows_intersection(z, v);
            assert(z[0] == a);
            assert(z[1] == b);
        },
    }
}

/// Intersecting is associative in what it allows: however three constraints
/// are intersected, the result allows the versions that all three allow.
pub proof fn lemma_intersect_associative(
    a: ConstraintView,
    b: ConstraintView,
    c: ConstraintView,
    v: VersionView,
)
    ensures
        allows_spec(intersect_spec(intersect_spec(a, b), c), v) == allows_spec(
            intersect_spec(a, intersect_spec(b, c)),
            v,
        ),
        allows_spec(intersect_spec(intersect_spec(a, b), c), v) == (allows_spec(a, v)
            && allows_spec(b, v) && allows_spec(c, v)),
{
    lemma_intersect_allows(a, b, v);
    lemma_intersect_allows(intersect_spec(a, b), c, v);
    lemma_intersect_allows(b, c, v);
    lemma_intersect_allows(a, intersect_spec(b, c), v);
}

/// Copies of the constraints in `cs`.
#[verifier::loop_isolation(false)]
pub fn clone_constraints(cs: &Vec<Constraint>) -> (r: Vec<Constraint>)
    ensures
        models(r@) == models(cs@),
    decreases cs,
{
    let mut out: Vec<Constraint> = Vec::new();
    let mut i: usize = 0;
    while i < cs.len()
        invariant
            i <= cs.len(),
            out.len() == i,
            forall|j: int| 0 <= j < i ==> out[j]@ == cs[j]@,
        decreases cs.len() - i,
    {
        out.push(cs[i].clone());
        i += 1;
    }
    assert(models(out@) =~= models(cs@));
    out
}

impl Clone for Constraint {
    fn clone(&self) -> (r: Self)
        ensures
            r@ == self@,
        decreases self,
    {
        match self {
            Constraint::Any => Constraint::Any,
            Constraint::Exact(v) => Constraint::Exact(v.clone()),
            Constraint::Range(lo, hi) => Constraint::Range(lo.clone(), hi.clone()),
            Constraint::Union(cs) => {
                let out = clone_constraints(cs);
                let r = Constraint::Union(out);
                proof {
                    lemma_members(out@);
                    lemma_members(cs@);
                    assert(r@->Union_0 =~= models(out@));
                    assert(self@->Union_0 =~= models(cs@));
                }
                r
            },
            Constraint::Intersection(cs) => {
                let out = clone_constraints(cs);
                let r = Constraint::Intersection(out);
                proof {
                    assert(r@->Intersection_0 =~= models(out@));
                    assert(self@->Intersection_0 =~= models(cs@));
                }
                r
            },
            Constraint::Not(c) => Constraint::Not(Box::new((**c).clone())),
        }
    }
}

/// Whether the constraints of `x` and `y` are the same, one for one.
#[verifier::loop_isolation(false)]
pub fn same_constraints(x: &Vec<Constraint>, y: &Vec<Constraint>) -> (r: bool)
    ensures
        r == (models(x@) == models(y@)),
    decreases x,
{
    if x.len() != y.len() {
        assert(models(x@).len() != models(y@).len());
        return false;
    }
    let mut i: usize = 0;
    while i < x.len()
        invariant
            i <= x.len(),
            x.len() == y.len(),
            forall|j: int| 0 <= j < i ==> x[j]@ == y[j]@,
        decreases x.len() - i,
    {
        if !x[i].same(&y[i]) {
            assert(models(x@)[i as int] != models(y@)[i as int]);
            return false;
        }
        i += 1;
    }
    assert(models(x@) =~= models(y@));
    true
}

/// The members of a union or intersection are the values of its parts.
pub proof fn lemma_members(cs: Seq<Constraint>)
    ensures
        forall|i: int| 0 <= i < cs.len() ==> (#[trigger] models(cs)[i]) == cs[i]@,
        models(cs).len() == cs.len(),
{
}

impl Constraint {
    /// Whether both constraints are built alike from the same versions.
    pub fn same(&self, other: &Constraint) -> (r: bool)
        ensures
            r == (self@ == other@),
        decreases self,
    {
        match (self, other) {
            (Constraint::Any, Constraint::Any) => true,
            (Constraint::Exact(a), Constraint::Exact(b)) => a.same(b),
            (Constraint::Range(a1, a2), Constraint::Range(b1, b2)) => a1.same(b1) && a2.same(b2),
            (Constraint::Union(x), Constraint::Union(y)) => {
                proof {
                    assert(self@->Union_0 =~= models(x@));
                    assert(other@->Union_0 =~= models(y@));
                }
                same_constraints(x, y)
            },
            (Constraint::Intersection(x), Constraint::Intersection(y)) => {
                proof {
                    assert(self@->Intersection_0 =~= models(x@));
                    assert(other@->Intersection_0 =~= models(y@));
                }
                same_constraints(x, y)
            },
            (Constraint::Not(a), Constraint::Not(b)) => a.same(b),
            _ => false,
        }
    }

    /// Whether the constraint allows `version`.
    #[verifier::loop_isolation(false)]
    pub fn allows(&self, version: &Version) -> (r: bool)
        ensures
            r == allows_spec(self@, version@),
        decreases self,
    {
        match self {
            Constraint::Any => true,
            Constraint::Exact(v) => v.order(version) == 0,
            Constraint::Range(lo, hi) => lo.at_most(version) && version.precedes(hi),
            Constraint::Union(cs) => {
                let ghost members = self@->Union_0;
                assert(members =~= models(cs@));
                let mut i: usize = 0;
                while i < cs.len()
                    invariant
                        i <= cs.len(),
                        forall|j: int| 0 <= j < i ==> !allows_spec(#[trigger] members[j], version@),
                    decreases cs.len() - i,
                {
                    if cs[i].allows(version) {
                        assert(members[i as int] == cs[i as int]@);
                        return true;
                    }
                    assert(members[i as int] == cs[i as int]@);
                    i += 1;
                }
                false
            },
            Constraint::Intersection(cs) => {
                let ghost members = self@->Intersection_0;
                assert(members =~= models(cs@));
                let mut i: usize = 0;
                while i < cs.len()
                    invariant
                        i <= cs.len(),
                        forall|j: int| 0 <= j < i ==> allows_spec(#[trigger] members[j], version@),
                    decreases cs.len() - i,
                {
                    if !cs[i].allows(version) {
                        assert(members[i as int] == cs[i as int]@);
                        return false;
                    }
                    assert(members[i as int] == cs[i as int]@);
                    i += 1;
                }
                true
            },
            Constraint::Not(c) => !c.allows(version),
        }
    }

    /// The intersection of `self` and `other`, kept shallow: see
    /// [`intersect_spec`]. It allows what both allow
    /// ([`lemma_intersect_allows`]).
    pub fn intersect(&self, other: &Constraint) -> (r: Constraint)
        ensures
            r@ == intersect_spec(self@, other@),
    {
        match (self, other) {
            (Constraint::Any, c) => c.clone(),
            (c, Constraint::Any) => c.clone(),
            (Constraint::Exact(v1), Constraint::Exact(v2)) => {
                if v1.order(v2) == 0 {
                    Constraint::Exact(v1.clone())
                } else {
                    let r = Constraint::Union(Vec::new());
                    assert(r@->Union_0 =~= Seq::<ConstraintView>::empty());
                    r
                }
            },
            (Constraint::Intersection(c1), Constraint::Intersection(c2)) => {
                let mut combined = clone_constraints(c1);
                let mut rest = clone_constraints(c2);
                let ghost first = combined@;
                let ghost second = rest@;
                combined.append(&mut rest);
                let r = Constraint::Intersection(combined);
                proof {
                    assert(combined@ == first + second);
                    assert(models(first) == models(c1@));
                    assert(models(second) == models(c2@));
                    assert(self@->Intersection_0 =~= models(c1@));
                    assert(other@->Intersection_0 =~= models(c2@));
                    assert(models(first + second) =~= models(first) + models(second));
                    assert(r@->Intersection_0 =~= models(combined@));
                }
                r
            },
            (c1, Constraint::Intersection(c2)) => {
                let mut combined = clone_constraints(c2);
                let ghost first = combined@;
                let x = c1.clone();
                combined.push(x);
                let r = Constraint::Intersection(combined);
                proof {
                    assert(other@->Intersection_0 =~= models(c2@));
                    assert(models(first.push(x)) =~= models(first).push(x@));
                    assert(r@->Intersection_0 =~= models(combined@));
                }
                r
            },
            (Constraint::Intersection(c1), c2) => {
                let mut combined = clone_constraints(c1);
                let ghost first = combined@;
                let x = c2.clone();
                combined.push(x);
                let r = Constraint::Intersection(combined);
                proof {
                    assert(self@->Intersection_0 =~= models(c1@));
                    assert(models(first.push(x)) =~= models(first).push(x@));
                    assert(r@->Intersection_0 =~= models(combined@));
                }
                r
            },
            (c1, c2) => {
                let x = c1.clone();
                let y = c2.clone();
                let combined = vec![x, y];
                let r = Constraint::Intersection(combined);
                proof {
                    assert(r@->Intersection_0 =~= seq![x@, y@]);
                }
                r
            },
        }
    }
}

// ---------------------------------------------------------------------------
// Constraints from operators
// ---------------------------------------------------------------------------

/// The version that stands for "above every version in use": epoch 9999,
/// release 9999.9999.9999.
pub open spec fn upper_bound() -> VersionView {
    VersionView {
        epoch: 9999,
        release: seq![9999u64, 9999u64, 9999u64],
        pre: None,
        post: None,
        dev: None,
        local: None,
    }
}

/// The version that stands for "below every version in use": release 0.
pub open spec fn lower_bound() -> VersionView {
    VersionView { epoch: 0, release: seq![0u64], pre: None, post: None, dev: None, local: None }
}

/// The exclusive upper bound of a compatible release: the release of `v`
/// without its last number and with the number before it raised by one.
pub open spec fn compatible_upper(v: VersionView) -> VersionView {
    let n = v.release.len() as int;
    VersionView {
        epoch: v.epoch,
        release: v.release.take(n - 2).push((v.release[n - 2] + 1) as u64),
        pre: None,
        post: None,
        dev: None,
        local: None,
    }
}

/// The versions at or above `v`.
pub open spec fn at_least(v: VersionView) -> ConstraintView {
    ConstraintView::Range(v, upper_bound())
}

/// The versions below `v`.
pub open spec fn below(v: VersionView) -> ConstraintView {
    ConstraintView::Range(lower_bound(), v)
}

/// The versions other than `v`.
pub open spec fn other_than(v: VersionView) -> ConstraintView {
    ConstraintView::Not(Box::new(ConstraintView::Exact(v)))
}

/// The constraint that the operator `op` and the version `v` denote, where
/// `op` is an operator:
/// `==` the version itself; `>=` and `<` a range with a synthetic bound;
/// `>` the range from `v` without `v`; `<=` the range below `v` or `v`;
/// `!=` all but `v`; `~=` the range from `v` up to its compatible upper
/// bound, or every version where `v` has fewer than two release numbers, or
/// nothing where the raised number exceeds 64 bits.
pub open spec fn operator_spec(op: Seq<char>, v: VersionView) -> Result<
    ConstraintView,
    ParseError,
> {
    if op == seq!['=', '='] {
        Ok(ConstraintView::Exact(v))
    } else if op == seq!['>', '='] {
        Ok(at_least(v))
    } else if op == seq!['<', '='] {
        Ok(ConstraintView::Union(seq![below(v), ConstraintView::Exact(v)]))
    } else if op == seq!['>'] {
        Ok(ConstraintView::Intersection(seq![at_least(v), other_than(v)]))
    } else if op == seq!['<'] {
        Ok(below(v))
    } else if op == seq!['!', '='] {
        Ok(other_than(v))
    } else if op == seq!['~', '='] {
        if v.release.len() < 2 {
            Ok(ConstraintView::Any)
        } else if v.release[v.release.len() - 2] == u64::MAX {
            Err(ParseError::InvalidVersionFormat)
        } else {
            Ok(ConstraintView::Intersection(seq![at_least(v), below(compatible_upper(v))]))
        }
    } else {
        Err(ParseError::InvalidRequirementFormat)
    }
}

/// Whether `op` is one of `==`, `>=`, `<=`, `>`, `<`, `!=` and `~=`.
pub open spec fn is_operator(op: Seq<char>) -> bool {
    ||| op == seq!['=', '=']
    ||| op == seq!['>', '=']
    ||| op == seq!['<', '=']
    ||| op == seq!['>']
    ||| op == seq!['<']
    ||| op == seq!['!', '=']
    ||| op == seq!['~', '=']
}

/// The constraint that the operator text and the version text denote: an
/// unknown operator is no requirement, a known one with a text that is no
/// version is no version, and otherwise [`operator_spec`] decides.
pub open spec fn from_operator_spec(op: Seq<char>, version: Seq<char>) -> Result<
    ConstraintView,
    ParseError,
> {
    if !is_operator(op) {
        Err(ParseError::InvalidRequirementFormat)
    } else {
        match parse_spec(version) {
            Some(v) => operator_spec(op, v),
            None => Err(ParseError::InvalidVersionFormat),
        }
    }
}

fn upper_bound_version() -> (r: Version)
    ensures
        r@ == upper_bound(),
{
    let r = Version {
        epoch: 9999,
        release: vec![9999u64, 9999u64, 9999u64],
        pre: None,
        post: None,
        dev: None,
        local: None,
    };
    assert(r@.release =~= seq![9999u64, 9999u64, 9999u64]);
    r
}

fn lower_bound_version() -> (r: Version)
    ensures
        r@ == lower_bound(),
{
    let r = Version {
        epoch: 0,
        release: vec![0u64],
        pre: None,
        post: None,
        dev: None,
        local: None,
    };
    assert(r@.release =~= seq![0u64]);
    r
}

fn range_from(v: Version) -> (r: Constraint)
    ensures
        r@ == at_least(v@),
{
    Constraint::Range(v, upper_bound_version())
}

fn range_below(v: Version) -> (r: Constraint)
    ensures
        r@ == below(v@),
{
    Constraint::Range(lower_bound_version(), v)
}

fn all_but(v: Version) -> (r: Constraint)
    ensures
        r@ == other_than(v@),
{
    let inner = Constraint::Exact(v);
    assert(inner@ == ConstraintView::Exact(v@));
    Constraint::Not(Box::new(inner))
}

fn pair_union(a: Constraint, b: Constraint) -> (r: Constraint)
    ensures
        r@ == ConstraintView::Union(seq![a@, b@]),
{
    let r = Constraint::Union(vec![a, b]);
    assert(r@->Union_0 =~= seq![a@, b@]);
    r
}

fn pair_intersection(a: Constraint, b: Constraint) -> (r: Constraint)
    ensures
        r@ == ConstraintView::Intersection(seq![a@, b@]),
{
    let r = Constraint::Intersection(vec![a, b]);
    assert(r@->Intersection_0 =~= seq![a@, b@]);
    r
}

/// The exclusive upper bound of the compatible release of `v`.
fn compatible_upper_version(v: &Version) -> (r: Version)
    requires
        v@.release.len() >= 2,
        v@.release[v@.release.len() - 2] < u64::MAX,
    ensures
        r@ == compatible_upper(v@),
{
    let n = v.release.len();
    let mut prefix: Vec<u64> = Vec::new();
    let mut i: usize = 0;
    while i < n - 2
        invariant
            i <= n - 2,
            n == v.release.len(),
            n >= 2,
            prefix@ == v.release@.take(i as int),
        decreases n - 2 - i,
    {
        prefix.push(v.release[i]);
        i += 1;
    }
    prefix.push(v.release[n - 2] + 1);
    Version { epoch: v.epoch, release: prefix, pre: None, post: None, dev: None, local: None }
}

impl Constraint {
    /// The constraint that the operator `op` and the version `v` denote.
    pub fn from_parts(op: &str, v: Version) -> (r: Result<Constraint, ParseError>)
        ensures
            match r {
                Ok(c) => operator_spec(op@, v@) == Ok::<ConstraintView, ParseError>(c@),
                Err(e) => operator_spec(op@, v@) == Err::<ConstraintView, ParseError>(e),
            },
    {
        let o = chars_of(op);
        if is_pair(&o, '=', '=') {
            Ok(Constraint::Exact(v))
        } else if is_pair(&o, '>', '=') {
            Ok(range_from(v))
        } else if is_pair(&o, '<', '=') {
            let w = v.clone();
            Ok(pair_union(range_below(w), Constraint::Exact(v)))
        } else if is_single(&o, '>') {
            let w = v.clone();
            Ok(pair_intersection(range_from(w), all_but(v)))
        } else if is_single(&o, '<') {
            Ok(range_below(v))
        } else if is_pair(&o, '!', '=') {
            Ok(all_but(v))
        } else if is_pair(&o, '~', '=') {
            let n = v.release.len();
            if n < 2 {
                Ok(Constraint::Any)
            } else if v.release[n - 2] == u64::MAX {
                Err(ParseError::InvalidVersionFormat)
            } else {
                let upper = compatible_upper_version(&v);
                Ok(pair_intersection(range_from(v), range_below(upper)))
            }
        } else {
            Err(ParseError::InvalidRequirementFormat)
        }
    }

    /// Whether the operator with the version falls back to every version:
    /// that is so for `~=` with a version of fewer than two release
    /// numbers, which has no compatible releases to speak of. A caller may
    /// want to warn of it.
    pub fn falls_back(op: &str, version: &Version) -> (r: bool)
        ensures
            r == (op@ == seq!['~', '='] && operator_spec(op@, version@) == Ok::<
                ConstraintView,
                ParseError,
            >(ConstraintView::Any)),
            r == (op@ == seq!['~', '='] && version@.release.len() < 2),
    {
        let o = chars_of(op);
        is_pair(&o, '~', '=') && version.release.len() < 2
    }

    /// The constraint that an operator and a version, both as text, denote.
    /// Fails with `InvalidRequirementFormat` where `op` is no operator and
    /// with `InvalidVersionFormat` where `version` is no version.
    pub fn from_operator(op: &str, version: &str) -> (r: Result<Constraint, ParseError>)
        ensures
            match r {
                Ok(c) => from_operator_spec(op@, version@) == Ok::<ConstraintView, ParseError>(c@),
                Err(e) => from_operator_spec(op@, version@) == Err::<ConstraintView, ParseError>(
                    e,
                ),
            },
    {
        if !is_operator_text(op) {
            return Err(ParseError::InvalidRequirementFormat);
        }
        match Version::parse(version) {
            Ok(v) => Constraint::from_parts(op, v),
            Err(_) => Err(ParseError::InvalidVersionFormat),
        }
    }
}

fn is_single(o: &Vec<char>, a: char) -> (r: bool)
    ensures
        r == (o@ == seq![a]),
{
    let r = o.len() == 1 && o[0] == a;
    proof {
        if r {
            assert(o@ =~= seq![a]);
        } else if o@ == seq![a] {
            assert(o@[0] == a);
        }
    }
    r
}

/// Whether `op` is one of the seven operators.
pub fn is_operator_text(op: &str) -> (r: bool)
    ensures
        r == is_operator(op@),
{
    let o = chars_of(op);
    is_pair(&o, '=', '=') || is_pair(&o, '>', '=') || is_pair(&o, '<', '=') || is_single(&o, '>') || is_single(&o, '<') || is_pair(&o, '!', '=') || is_pair(&o, '~', '=')
}

// ---------------------------------------------------------------------------
// Constraints in words
// ---------------------------------------------------------------------------

/// The constraint in words: `*` for every version, `==V` for an exact
/// version, `>=A,<B` for a range, the members of a union between `(` and `)`
/// with ` | ` between them, those of an intersection with ` & `, and `!`
/// before what is excluded.
pub open spec fn describe_spec(c: ConstraintView) -> Seq<char>
    decreases c, 1nat, 0nat,
{
    match c {
        ConstraintView::Any => seq!['*'],
        ConstraintView::Exact(v) => seq!['=', '='] + format_spec(v),
        ConstraintView::Range(lo, hi) => seq!['>', '='] + format_spec(lo) + seq![',', '<']
            + format_spec(hi),
        ConstraintView::Union(cs) => seq!['('] + describe_from(c, 0) + seq![')'],
        ConstraintView::Intersection(cs) => seq!['('] + describe_from(c, 0) + seq![')'],
        ConstraintView::Not(inner) => seq!['!'] + describe_spec(*inner),
    }
}

/// The members of a union or intersection from `i` on, in words, with
/// ` | ` or ` & ` between each two.
pub open spec fn describe_from(c: ConstraintView, i: int) -> Seq<char>
    decreases c, 0nat, member_count(c) - i,
{
    if 0 <= i < member_count(c) {
        let first = match c {
            ConstraintView::Union(cs) => describe_spec(cs[i]),
            ConstraintView::Intersection(cs) => describe_spec(cs[i]),
            _ => Seq::empty(),
        };
        if i + 1 < member_count(c) {
            first + member_separator(c) + describe_from(c, i + 1)
        } else {
            first
        }
    } else {
        Seq::empty()
    }
}

/// The number of members of a union or intersection; 0 for another
/// constraint.
pub open spec fn member_count(c: ConstraintView) -> int {
    match c {
        ConstraintView::Union(cs) => cs.len() as int,
        ConstraintView::Intersection(cs) => cs.len() as int,
        _ => 0,
    }
}

/// What stands between the members of a union or intersection in words.
pub open spec fn member_separator(c: ConstraintView) -> Seq<char> {
    match c {
        ConstraintView::Union(_) => " | "@,
        _ => " & "@,
    }
}

/// The members in words, joined, are the joined words of the members.
proof fn lemma_describe_from(c: ConstraintView, parts: Seq<Seq<char>>, i: int)
    requires
        c is Union || c is Intersection,
        parts.len() == member_count(c),
        0 <= i,
        forall|k: int|
            0 <= k < parts.len() ==> #[trigger] parts[k] == describe_spec(
                match c {
                    ConstraintView::Union(cs) => cs[k],
                    ConstraintView::Intersection(cs) => cs[k],
                    _ => c,
                },
            ),
    ensures
        crate::text::join_from(parts, member_separator(c), i) == describe_from(c, i),
    decreases parts.len() - i,
{
    if i < parts.len() {
        lemma_describe_from(c, parts, i + 1);
        assert(parts[i] == describe_spec(
            match c {
                ConstraintView::Union(cs) => cs[i],
                ConstraintView::Intersection(cs) => cs[i],
                _ => c,
            },
        ));
    }
}

/// The members of `cs` in words.
#[verifier::loop_isolation(false)]
fn describe_members(cs: &Vec<Constraint>) -> (r: Vec<Vec<char>>)
    ensures
        r.len() == cs.len(),
        forall|k: int| 0 <= k < cs.len() ==> (#[trigger] r[k])@ == describe_spec(cs[k]@),
    decreases cs,
{
    let mut parts: Vec<Vec<char>> = Vec::new();
    let mut i: usize = 0;
    while i < cs.len()
        invariant
            i <= cs.len(),
            parts.len() == i,
            forall|k: int| 0 <= k < i ==> (#[trigger] parts[k])@ == describe_spec(cs[k]@),
        decreases cs.len() - i,
    {
        parts.push(cs[i].describe_chars());
        i += 1;
    }
    parts
}

impl Constraint {
    /// The characters of the constraint in words.
    fn describe_chars(&self) -> (r: Vec<char>)
        ensures
            r@ == describe_spec(self@),
        decreases self,
    {
        let mut out: Vec<char> = Vec::new();
        match self {
            Constraint::Any => {
                out.push('*');
                assert(out@ =~= seq!['*']);
            },
            Constraint::Exact(v) => {
                out.push('=');
                out.push('=');
                push_str(&mut out, v.format().as_str());
                assert(out@ =~= seq!['=', '='] + format_spec(v@));
            },
            Constraint::Range(lo, hi) => {
                out.push('>');
                out.push('=');
                push_str(&mut out, lo.format().as_str());
                out.push(',');
                out.push('<');
                push_str(&mut out, hi.format().as_str());
                assert(out@ =~= seq!['>', '='] + format_spec(lo@) + seq![',', '<'] + format_spec(
                    hi@,
                ));
            },
            Constraint::Union(cs) => {
                let parts = describe_members(cs);
                out.push('(');
                push_joined(&mut out, &parts, " | ");
                out.push(')');
                proof {
                    let members = self@->Union_0;
                    assert(members =~= models(cs@));
                    assert forall|k: int| 0 <= k < rows(parts@).len() implies #[trigger] rows(
                        parts@,
                    )[k] == describe_spec(members[k]) by {
                        assert(parts[k]@ == describe_spec(cs[k]@));
                    }
                    lemma_describe_from(self@, rows(parts@), 0);
                    assert(out@ =~= seq!['('] + describe_from(self@, 0) + seq![')']);
                }
            },
            Constraint::Intersection(cs) => {
                let parts = describe_members(cs);
                out.push('(');
                push_joined(&mut out, &parts, " & ");
                out.push(')');
                proof {
                    let members = self@->Intersection_0;
                    assert(members =~= models(cs@));
                    assert forall|k: int| 0 <= k < rows(parts@).len() implies #[trigger] rows(
                        parts@,
                    )[k] == describe_spec(members[k]) by {
                        assert(parts[k]@ == describe_spec(cs[k]@));
                    }
                    lemma_describe_from(self@, rows(parts@), 0);
                    assert(out@ =~= seq!['('] + describe_from(self@, 0) + seq![')']);
                }
            },
            Constraint::Not(c) => {
                out.push('!');
                let inner = c.describe_chars();
                crate::text::push_range(&mut out, &inner, 0, inner.len());
                assert(inner@.subrange(0, inner.len() as int) =~= inner@);
                assert(out@ =~= seq!['!'] + describe_spec(c@));
            },
        }
        out
    }

    /// The constraint in words, such as `(>=1.0,<2.0 & !==1.5)`.
    pub fn describe(&self) -> (r: String)
        ensures
            r@ == describe_spec(self@),
    {
        string_of(&self.describe_chars())
    }
}

} // verus!
