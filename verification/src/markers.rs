//! Requirements: a package name with optional extras, version specifiers and
//! an environment marker, and the evaluation of markers against a target
//! environment.

use crate::constraint::{
    from_operator_spec, lemma_members, Constraint, ConstraintView,
};
use crate::pep440::{parse_spec, version_order, ParseError, Version};
use crate::text::{
    chars_of, copy_range, find_char, index_of, is_alnum_char, is_ascii_alnum, is_space_char,
    order_chars, rows, space_end, split, split_chars, string_of, strings_of, text_at, text_order,
    texts, trim_chars, trimmed,
};
use vstd::prelude::*;

verus! {

/// One version specifier of a requirement: an operator and a version text.
#[derive(Debug)]
pub struct VersionSpecifier {
    pub operator: String,
    pub version: String,
}

/// The mathematical value of a [`VersionSpecifier`].
pub struct VersionSpecifierView {
    pub operator: Seq<char>,
    pub version: Seq<char>,
}

/// An environment marker, kept as its text.
#[derive(Debug)]
pub struct EnvironmentMarker {
    pub raw: String,
}

/// A requirement as written: name, extras, version specifiers and marker.
#[derive(Debug)]
pub struct DependencySpecifier {
    pub name: String,
    pub extras: Vec<String>,
    pub version_specs: Vec<VersionSpecifier>,
    pub marker: Option<EnvironmentMarker>,
}

/// The mathematical value of a [`DependencySpecifier`].
pub struct DependencySpecifierView {
    pub name: Seq<char>,
    pub extras: Seq<Seq<char>>,
    pub version_specs: Seq<VersionSpecifierView>,
    pub marker: Option<Seq<char>>,
}

/// The environment that markers are evaluated against.
#[derive(Debug)]
pub struct TargetEnvironment {
    pub python_version: String,
    pub sys_platform: String,
    pub platform_system: String,
    pub platform_machine: String,
}

impl View for VersionSpecifier {
    type V = VersionSpecifierView;

    open spec fn view(&self) -> VersionSpecifierView {
        VersionSpecifierView { operator: self.operator@, version: self.version@ }
    }
}

impl View for EnvironmentMarker {
    type V = Seq<char>;

    open spec fn view(&self) -> Seq<char> {
        self.raw@
    }
}

/// The values of a sequence of version specifiers.
pub open spec fn specifier_views(v: Seq<VersionSpecifier>) -> Seq<VersionSpecifierView> {
    Seq::new(v.len(), |i: int| v[i]@)
}

impl View for DependencySpecifier {
    type V = DependencySpecifierView;

    open spec fn view(&self) -> DependencySpecifierView {
        DependencySpecifierView {
            name: self.name@,
            extras: texts(self.extras@),
            version_specs: specifier_views(self.version_specs@),
            marker: match self.marker {
                Some(m) => Some(m@),
                None => None,
            },
        }
    }
}

impl Clone for VersionSpecifier {
    fn clone(&self) -> (r: Self)
        ensures
            r@ == self@,
    {
        VersionSpecifier { operator: self.operator.clone(), version: self.version.clone() }
    }
}

impl Clone for EnvironmentMarker {
    fn clone(&self) -> (r: Self)
        ensures
            r@ == self@,
    {
        EnvironmentMarker { raw: self.raw.clone() }
    }
}

impl Clone for TargetEnvironment {
    fn clone(&self) -> (r: Self)
        ensures
            r.python_version@ == self.python_version@,
            r.sys_platform@ == self.sys_platform@,
            r.platform_system@ == self.platform_system@,
            r.platform_machine@ == self.platform_machine@,
    {
        TargetEnvironment {
            python_version: self.python_version.clone(),
            sys_platform: self.sys_platform.clone(),
            platform_system: self.platform_system.clone(),
            platform_machine: self.platform_machine.clone(),
        }
    }
}

impl TargetEnvironment {
    /// The environment of an interpreter of version 3.11 on the given
    /// operating system and machine.
    pub fn for_platform(os: &str, arch: &str) -> (r: TargetEnvironment)
        ensures
            r.python_version@ == seq!['3', '.', '1', '1'],
            r.sys_platform@ == os@,
            r.platform_system@ == os@,
            r.platform_machine@ == arch@,
    {
        let v = vec!['3', '.', '1', '1'];
        assert(v@ =~= seq!['3', '.', '1', '1']);
        TargetEnvironment {
            python_version: string_of(&v),
            sys_platform: string_of(&chars_of(os)),
            platform_system: string_of(&chars_of(os)),
            platform_machine: string_of(&chars_of(arch)),
        }
    }
}

// ---------------------------------------------------------------------------
// Version specifiers
// ---------------------------------------------------------------------------

/// The first position at or after `i` that does not hold `c`.
pub open spec fn run_end(s: Seq<char>, c: char, i: int) -> int
    decreases s.len() - i,
{
    if 0 <= i < s.len() && s[i] == c {
        run_end(s, c, i + 1)
    } else {
        i
    }
}

/// Where the run of `c` that ends at `hi` begins, not below `lo`.
pub open spec fn run_start(s: Seq<char>, c: char, lo: int, hi: int) -> int
    decreases hi,
{
    if 0 <= lo < hi <= s.len() && s[hi - 1] == c {
        run_start(s, c, lo, hi - 1)
    } else {
        hi
    }
}

/// `s` without its leading `(` and its trailing `)`.
pub open spec fn strip_parens(s: Seq<char>) -> Seq<char> {
    let lo = run_end(s, '(', 0);
    s.subrange(lo, run_start(s, ')', lo, s.len() as int))
}

/// The operator that `part` begins with and its length; `===` and the
/// two-character operators are tried before `<` and `>`.
pub open spec fn leading_operator(part: Seq<char>) -> Option<Seq<char>> {
    if text_at(part, 0, seq!['=', '=', '=']) {
        Some(seq!['=', '=', '='])
    } else if text_at(part, 0, seq!['~', '=']) {
        Some(seq!['~', '='])
    } else if text_at(part, 0, seq!['!', '=']) {
        Some(seq!['!', '='])
    } else if text_at(part, 0, seq!['<', '=']) {
        Some(seq!['<', '='])
    } else if text_at(part, 0, seq!['>', '=']) {
        Some(seq!['>', '='])
    } else if text_at(part, 0, seq!['=', '=']) {
        Some(seq!['=', '='])
    } else if text_at(part, 0, seq!['<']) {
        Some(seq!['<'])
    } else if text_at(part, 0, seq!['>']) {
        Some(seq!['>'])
    } else {
        None
    }
}

/// The specifier that `part` denotes: its leading operator and what follows,
/// trimmed; without an operator, `==` and the whole of `part`.
pub open spec fn specifier_of(part: Seq<char>) -> VersionSpecifierView {
    match leading_operator(part) {
        Some(op) => VersionSpecifierView {
            operator: op,
            version: trimmed(part.subrange(op.len() as int, part.len() as int)),
        },
        None => VersionSpecifierView { operator: seq!['=', '='], version: part },
    }
}

/// The specifiers of the parts from `i` on; parts that are blank are passed
/// over.
pub open spec fn specifiers_from(parts: Seq<Seq<char>>, i: int) -> Seq<VersionSpecifierView>
    decreases parts.len() - i,
{
    if 0 <= i < parts.len() {
        let p = trimmed(parts[i]);
        if p.len() == 0 {
            specifiers_from(parts, i + 1)
        } else {
            seq![specifier_of(p)] + specifiers_from(parts, i + 1)
        }
    } else {
        Seq::empty()
    }
}

/// The specifiers of a specifier list: surrounding parentheses are dropped,
/// the rest is split at commas.
pub open spec fn specifiers_spec(text: Seq<char>) -> Seq<VersionSpecifierView> {
    if text.len() == 0 {
        Seq::empty()
    } else {
        specifiers_from(split(trimmed(strip_parens(trimmed(text))), ','), 0)
    }
}

fn strip_parens_chars(v: &Vec<char>) -> (r: Vec<char>)
    ensures
        r@ == strip_parens(v@),
{
    let mut lo: usize = 0;
    while lo < v.len() && v[lo] == '('
        invariant
            lo <= v.len(),
            run_end(v@, '(', lo as int) == run_end(v@, '(', 0),
        decreases v.len() - lo,
    {
        lo += 1;
    }
    let mut hi: usize = v.len();
    while hi > lo && v[hi - 1] == ')'
        invariant
            lo <= hi <= v.len(),
            run_start(v@, ')', lo as int, hi as int) == run_start(
                v@,
                ')',
                lo as int,
                v.len() as int,
            ),
        decreases hi,
    {
        hi -= 1;
    }
    copy_range(v, lo, hi)
}

fn starts_with(part: &Vec<char>, w: &Vec<char>) -> (r: bool)
    ensures
        r == text_at(part@, 0, w@),
{
    crate::text::text_at_pos(part, 0, w)
}

fn leading_operator_chars(part: &Vec<char>) -> (r: Option<Vec<char>>)
    ensures
        match r {
            Some(op) => leading_operator(part@) == Some(op@) && op.len() <= part.len(),
            None => leading_operator(part@) is None,
        },
{
    let candidates: Vec<Vec<char>> = vec![
        vec!['=', '=', '='],
        vec!['~', '='],
        vec!['!', '='],
        vec!['<', '='],
        vec!['>', '='],
        vec!['=', '='],
        vec!['<'],
        vec!['>'],
    ];
    proof {
        assert(candidates[0]@ =~= seq!['=', '=', '=']);
        assert(candidates[1]@ =~= seq!['~', '=']);
        assert(candidates[2]@ =~= seq!['!', '=']);
        assert(candidates[3]@ =~= seq!['<', '=']);
        assert(candidates[4]@ =~= seq!['>', '=']);
        assert(candidates[5]@ =~= seq!['=', '=']);
        assert(candidates[6]@ =~= seq!['<']);
        assert(candidates[7]@ =~= seq!['>']);
    }
    let mut i: usize = 0;
    while i < 8
        invariant
            i <= 8,
            candidates.len() == 8,
            candidates[0]@ == seq!['=', '=', '='],
            candidates[1]@ == seq!['~', '='],
            candidates[2]@ == seq!['!', '='],
            candidates[3]@ == seq!['<', '='],
            candidates[4]@ == seq!['>', '='],
            candidates[5]@ == seq!['=', '='],
            candidates[6]@ == seq!['<'],
            candidates[7]@ == seq!['>'],
            forall|j: int| 0 <= j < i ==> !text_at(part@, 0, #[trigger] candidates[j]@),
        decreases 8 - i,
    {
        if starts_with(part, &candidates[i]) {
            return Some(crate::text::copy_range(&candidates[i], 0, candidates[i].len()));
        }
        i += 1;
    }
    assert(!text_at(part@, 0, candidates[0]@));
    assert(!text_at(part@, 0, candidates[1]@));
    assert(!text_at(part@, 0, candidates[2]@));
    assert(!text_at(part@, 0, candidates[3]@));
    assert(!text_at(part@, 0, candidates[4]@));
    assert(!text_at(part@, 0, candidates[5]@));
    assert(!text_at(part@, 0, candidates[6]@));
    assert(!text_at(part@, 0, candidates[7]@));
    None
}

fn specifier_of_chars(part: &Vec<char>) -> (r: VersionSpecifier)
    ensures
        r@ == specifier_of(part@),
{
    match leading_operator_chars(part) {
        Some(op) => {
            let rest = copy_range(part, op.len(), part.len());
            let version = trim_chars(&rest);
            VersionSpecifier { operator: string_of(&op), version: string_of(&version) }
        },
        None => {
            let op = vec!['=', '='];
            assert(op@ =~= seq!['=', '=']);
            VersionSpecifier { operator: string_of(&op), version: string_of(part) }
        },
    }
}

/// The version specifiers of a specifier list such as `>=1.0, !=1.5`.
pub fn parse_version_specifiers(spec_str: &str) -> (r: Vec<VersionSpecifier>)
    ensures
        specifier_views(r@) == specifiers_spec(spec_str@),
{
    let all = chars_of(spec_str);
    specifiers_of_chars(&all)
}

fn specifiers_of_chars(text: &Vec<char>) -> (r: Vec<VersionSpecifier>)
    ensures
        specifier_views(r@) == specifiers_spec(text@),
{
    let mut out: Vec<VersionSpecifier> = Vec::new();
    if text.len() == 0 {
        assert(specifier_views(out@) =~= Seq::<VersionSpecifierView>::empty());
        return out;
    }
    let t = trim_chars(&strip_parens_chars(&trim_chars(text)));
    let parts = split_chars(&t, ',');
    let ghost ps = rows(parts@);
    let mut i: usize = 0;
    while i < parts.len()
        invariant
            i <= parts.len(),
            ps == rows(parts@),
            specifiers_from(ps, 0) == specifier_views(out@) + specifiers_from(ps, i as int),
        decreases parts.len() - i,
    {
        let p = trim_chars(&parts[i]);
        assert(ps[i as int] == parts[i as int]@);
        if p.len() > 0 {
            let ghost before = out@;
            let one = specifier_of_chars(&p);
            out.push(one);
            assert(specifier_views(out@) =~= specifier_views(before) + seq![specifier_of(p@)]);
            assert(specifier_views(before) + (seq![specifier_of(p@)] + specifiers_from(
                ps,
                i + 1,
            )) =~= specifier_views(out@) + specifiers_from(ps, i + 1));
        }
        i += 1;
    }
    assert(specifier_views(out@) + Seq::<VersionSpecifierView>::empty() =~= specifier_views(
        out@,
    ));
    out
}

// ---------------------------------------------------------------------------
// Constraints of specifiers
// ---------------------------------------------------------------------------

/// The first specifier at or after `i` that denotes no constraint, with the
/// reason.
pub open spec fn first_invalid(specs: Seq<VersionSpecifierView>, i: int) -> Option<ParseError>
    decreases specs.len() - i,
{
    if 0 <= i < specs.len() {
        match from_operator_spec(specs[i].operator, specs[i].version) {
            Err(e) => Some(e),
            Ok(_) => first_invalid(specs, i + 1),
        }
    } else {
        None
    }
}

/// The constraints that the specifiers denote, one for one.
pub open spec fn specifier_constraints(specs: Seq<VersionSpecifierView>) -> Seq<ConstraintView> {
    Seq::new(
        specs.len(),
        |i: int|
            match from_operator_spec(specs[i].operator, specs[i].version) {
                Ok(c) => c,
                Err(_) => ConstraintView::Any,
            },
    )
}

/// The constraint of a specifier list: every version where the list is
/// empty, the one constraint where it has one member, else the intersection
/// of all; the first failure where a specifier denotes no constraint.
pub open spec fn constraint_spec(specs: Seq<VersionSpecifierView>) -> Result<
    ConstraintView,
    ParseError,
> {
    match first_invalid(specs, 0) {
        Some(e) => Err(e),
        None => if specs.len() == 0 {
            Ok(ConstraintView::Any)
        } else if specs.len() == 1 {
            Ok(specifier_constraints(specs)[0])
        } else {
            Ok(ConstraintView::Intersection(specifier_constraints(specs)))
        },
    }
}

/// The constraint of a list of version specifiers.
pub fn constraint_of(specs: &Vec<VersionSpecifier>) -> (r: Result<Constraint, ParseError>)
    ensures
        match r {
            Ok(c) => constraint_spec(specifier_views(specs@)) == Ok::<ConstraintView, ParseError>(
                c@,
            ),
            Err(e) => constraint_spec(specifier_views(specs@)) == Err::<
                ConstraintView,
                ParseError,
            >(e),
        },
{
    let ghost sv = specifier_views(specs@);
    let mut out: Vec<Constraint> = Vec::new();
    let mut i: usize = 0;
    while i < specs.len()
        invariant
            i <= specs.len(),
            sv == specifier_views(specs@),
            out.len() == i,
            first_invalid(sv, 0) == first_invalid(sv, i as int),
            forall|j: int| 0 <= j < i ==> (#[trigger] out[j])@ == specifier_constraints(sv)[j],
        decreases specs.len() - i,
    {
        assert(sv[i as int] == specs[i as int]@);
        match Constraint::from_operator(specs[i].operator.as_str(), specs[i].version.as_str()) {
            Ok(c) => {
                out.push(c);
            },
            Err(e) => {
                return Err(e);
            },
        }
        i += 1;
    }
    if out.len() == 0 {
        Ok(Constraint::Any)
    } else if out.len() == 1 {
        let c = out.pop().unwrap();
        Ok(c)
    } else {
        let r = Constraint::Intersection(out);
        proof {
            lemma_members(out@);
            assert(r@->Intersection_0 =~= specifier_constraints(sv));
        }
        Ok(r)
    }
}

// ---------------------------------------------------------------------------
// Requirements
// ---------------------------------------------------------------------------

/// A character of a package name: a letter, a digit, `.`, `_` or `-`.
pub open spec fn is_name_char(c: char) -> bool {
    is_ascii_alnum(c) || c == '.' || c == '_' || c == '-'
}

/// The first position at or after `i` that holds no name character.
pub open spec fn name_run_end(s: Seq<char>, i: int) -> int
    decreases s.len() - i,
{
    if 0 <= i < s.len() && is_name_char(s[i]) {
        name_run_end(s, i + 1)
    } else {
        i
    }
}

/// The end of the name within the run that ends at `j`: the run without the
/// characters at its end that are neither letter nor digit.
pub open spec fn name_back(s: Seq<char>, j: int) -> int
    decreases j,
{
    if 1 < j <= s.len() && !is_ascii_alnum(s[j - 1]) {
        name_back(s, j - 1)
    } else {
        j
    }
}

/// Where the package name ends.
pub open spec fn name_end(s: Seq<char>) -> int {
    name_back(s, name_run_end(s, 0))
}

/// Whether extras in brackets, not empty, stand at `p`.
pub open spec fn has_extras(s: Seq<char>, p: int) -> bool {
    0 <= p < s.len() && s[p] == '[' && p + 1 < index_of(s, ']', p + 1) < s.len()
}

/// Where the text after the extras begins.
pub open spec fn after_extras(s: Seq<char>, p: int) -> int {
    if has_extras(s, p) {
        index_of(s, ']', p + 1) + 1
    } else {
        p
    }
}

/// The extras: the text between the brackets, split at commas, each piece
/// trimmed.
pub open spec fn extras_spec(s: Seq<char>, p: int) -> Seq<Seq<char>> {
    if has_extras(s, p) {
        let parts = split(s.subrange(p + 1, index_of(s, ']', p + 1)), ',');
        Seq::new(parts.len(), |i: int| trimmed(parts[i]))
    } else {
        Seq::empty()
    }
}

/// Where the marker text begins, given the position of the semicolon.
pub open spec fn marker_start(s: Seq<char>, semi: int) -> int {
    space_end(s, semi + 1)
}

/// Whether `s`, free of surrounding whitespace, has the form of a
/// requirement: it begins with a letter or digit, and a marker holds no line
/// break.
pub open spec fn is_requirement_text(s: Seq<char>) -> bool {
    let semi = index_of(s, ';', after_extras(s, name_end(s)));
    &&& s.len() > 0
    &&& is_ascii_alnum(s[0])
    &&& (semi < s.len() ==> index_of(s, '\n', marker_start(s, semi)) == s.len())
}

/// The parts of the requirement `s`, which is free of surrounding
/// whitespace.
pub open spec fn requirement_parts(s: Seq<char>) -> DependencySpecifierView {
    let p = name_end(s);
    let q = after_extras(s, p);
    let semi = index_of(s, ';', q);
    DependencySpecifierView {
        name: s.subrange(0, p),
        extras: extras_spec(s, p),
        version_specs: specifiers_spec(trimmed(s.subrange(q, semi))),
        marker: if semi < s.len() {
            Some(s.subrange(marker_start(s, semi), s.len() as int))
        } else {
            None
        },
    }
}

/// What parsing the requirement `text` yields: its parts, where it has the
/// form of a requirement and each of its specifiers denotes a constraint;
/// otherwise the reason why not.
pub open spec fn requirement_spec(text: Seq<char>) -> Result<DependencySpecifierView, ParseError> {
    let s = trimmed(text);
    if !is_requirement_text(s) {
        Err(ParseError::InvalidRequirementFormat)
    } else {
        match first_invalid(requirement_parts(s).version_specs, 0) {
            Some(e) => Err(e),
            None => Ok(requirement_parts(s)),
        }
    }
}

fn is_name(c: char) -> (r: bool)
    ensures
        r == is_name_char(c),
{
    is_alnum_char(c) || c == '.' || c == '_' || c == '-'
}

fn scan_name(s: &Vec<char>) -> (r: usize)
    requires
        s.len() > 0,
        is_ascii_alnum(s@[0]),
    ensures
        r == name_end(s@),
        1 <= r <= s.len(),
{
    let mut k: usize = 0;
    while k < s.len() && is_name(s[k])
        invariant
            k <= s.len(),
            name_run_end(s@, k as int) == name_run_end(s@, 0),
        decreases s.len() - k,
    {
        k += 1;
    }
    assert(k >= 1);
    let mut j: usize = k;
    while j > 1 && !is_alnum_char(s[j - 1])
        invariant
            1 <= j <= k <= s.len(),
            name_back(s@, j as int) == name_back(s@, k as int),
        decreases j,
    {
        j -= 1;
    }
    j
}

fn trim_all(parts: &Vec<Vec<char>>) -> (r: Vec<Vec<char>>)
    ensures
        rows(r@) == Seq::new(parts.len() as nat, |i: int| trimmed(rows(parts@)[i])),
{
    let mut out: Vec<Vec<char>> = Vec::new();
    let mut i: usize = 0;
    while i < parts.len()
        invariant
            i <= parts.len(),
            out.len() == i,
            forall|j: int| 0 <= j < i ==> out[j]@ == trimmed(parts[j]@),
        decreases parts.len() - i,
    {
        out.push(trim_chars(&parts[i]));
        i += 1;
    }
    assert(rows(out@) =~= Seq::new(parts.len() as nat, |i: int| trimmed(rows(parts@)[i])));
    out
}

fn first_invalid_of(specs: &Vec<VersionSpecifier>) -> (r: Option<ParseError>)
    ensures
        r == first_invalid(specifier_views(specs@), 0),
{
    let ghost sv = specifier_views(specs@);
    let mut i: usize = 0;
    while i < specs.len()
        invariant
            i <= specs.len(),
            sv == specifier_views(specs@),
            first_invalid(sv, 0) == first_invalid(sv, i as int),
        decreases specs.len() - i,
    {
        assert(sv[i as int] == specs[i as int]@);
        match Constraint::from_operator(specs[i].operator.as_str(), specs[i].version.as_str()) {
            Ok(_) => {},
            Err(e) => {
                return Some(e);
            },
        }
        i += 1;
    }
    None
}

/// Reads a requirement such as `requests[socks]>=2.25.0; python_version>='3.6'`.
/// Surrounding whitespace is ignored. Every part but the name may be
/// missing. Fails with `InvalidRequirementFormat` where the text does not
/// begin with a name or its marker holds a line break, and with the reason
/// of the first version specifier that denotes no constraint.
pub fn parse_requirement(req_str: &str) -> (r: Result<DependencySpecifier, ParseError>)
    ensures
        match r {
            Ok(d) => requirement_spec(req_str@) == Ok::<DependencySpecifierView, ParseError>(d@),
            Err(e) => requirement_spec(req_str@) == Err::<DependencySpecifierView, ParseError>(e),
        },
{
    let all = chars_of(req_str);
    let s = trim_chars(&all);
    let n = s.len();
    if n == 0 || !is_alnum_char(s[0]) {
        return Err(ParseError::InvalidRequirementFormat);
    }
    let p = scan_name(&s);
    let mut extras: Vec<String> = Vec::new();
    let mut q: usize = p;
    if p < n && s[p] == '[' {
        let close = find_char(&s, ']', p + 1);
        if close < n && close > p + 1 {
            let inner = copy_range(&s, p + 1, close);
            let parts = split_chars(&inner, ',');
            let trimmed_parts = trim_all(&parts);
            extras = strings_of(&trimmed_parts);
            q = close + 1;
        }
    }
    assert(q == after_extras(s@, p as int));
    assert(texts(extras@) =~= extras_spec(s@, p as int));
    let semi = find_char(&s, ';', q);
    let mut marker: Option<EnvironmentMarker> = None;
    if semi < n {
        let mut m: usize = semi + 1;
        while m < n && is_space_char(s[m])
            invariant
                semi < m <= n,
                n == s.len(),
                space_end(s@, m as int) == space_end(s@, semi + 1),
            decreases n - m,
        {
            m += 1;
        }
        if find_char(&s, '\n', m) != n {
            return Err(ParseError::InvalidRequirementFormat);
        }
        marker = Some(EnvironmentMarker { raw: crate::text::string_of_range(&s, m, n) });
    }
    let spec_text = trim_chars(&copy_range(&s, q, semi));
    let version_specs = specifiers_of_chars(&spec_text);
    match first_invalid_of(&version_specs) {
        Some(e) => Err(e),
        None => {
            let name = crate::text::string_of_range(&s, 0, p);
            Ok(DependencySpecifier { name, extras, version_specs, marker })
        },
    }
}

impl DependencySpecifier {
    /// The constraint that the version specifiers denote together.
    pub fn constraint(&self) -> (r: Result<Constraint, ParseError>)
        ensures
            match r {
                Ok(c) => constraint_spec(self@.version_specs) == Ok::<ConstraintView, ParseError>(
                    c@,
                ),
                Err(e) => constraint_spec(self@.version_specs) == Err::<
                    ConstraintView,
                    ParseError,
                >(e),
            },
    {
        constraint_of(&self.version_specs)
    }
}

// ---------------------------------------------------------------------------
// Markers
// ---------------------------------------------------------------------------

/// A single or double quote.
pub open spec fn is_quote(c: char) -> bool {
    c == '"' || c == '\''
}

/// The first position at or after `i` that holds a quote; the length of `s`
/// where there is none.
pub open spec fn quote_end(s: Seq<char>, i: int) -> int
    decreases s.len() - i,
{
    if 0 <= i < s.len() && !is_quote(s[i]) {
        quote_end(s, i + 1)
    } else if i < s.len() {
        i
    } else {
        s.len() as int
    }
}

/// The comparison operator at `j`: `>=`, `<=`, `>`, `<`, `==` or `!=`.
pub open spec fn comparison_at(s: Seq<char>, j: int) -> Option<Seq<char>> {
    if text_at(s, j, seq!['>', '=']) {
        Some(seq!['>', '='])
    } else if text_at(s, j, seq!['<', '=']) {
        Some(seq!['<', '='])
    } else if text_at(s, j, seq!['>']) {
        Some(seq!['>'])
    } else if text_at(s, j, seq!['<']) {
        Some(seq!['<'])
    } else if text_at(s, j, seq!['=', '=']) {
        Some(seq!['=', '='])
    } else if text_at(s, j, seq!['!', '=']) {
        Some(seq!['!', '='])
    } else {
        None
    }
}

/// A comparison of a marker: its operator and its quoted literal.
pub struct Clause {
    pub operator: Seq<char>,
    pub literal: Seq<char>,
}

/// The comparison of `key` that begins at `i`: the key, an operator and a
/// quoted literal that is not empty, with optional whitespace between them.
pub open spec fn clause_at(s: Seq<char>, i: int, key: Seq<char>) -> Option<Clause> {
    if !text_at(s, i, key) {
        None
    } else {
        let j = space_end(s, i + key.len());
        match comparison_at(s, j) {
            None => None,
            Some(op) => {
                let k = space_end(s, j + op.len());
                let e = quote_end(s, k + 1);
                if 0 <= k < s.len() && is_quote(s[k]) && k + 1 < e < s.len() {
                    Some(Clause { operator: op, literal: s.subrange(k + 1, e) })
                } else {
                    None
                }
            },
        }
    }
}

/// The first comparison of `key` at or after `i`.
pub open spec fn find_clause_from(s: Seq<char>, key: Seq<char>, i: int) -> Option<Clause>
    decreases s.len() + 1 - i,
{
    if 0 <= i <= s.len() {
        match clause_at(s, i, key) {
            Some(c) => Some(c),
            None => find_clause_from(s, key, i + 1),
        }
    } else {
        None
    }
}

/// The first comparison of `key` in the marker `s`.
pub open spec fn find_clause(s: Seq<char>, key: Seq<char>) -> Option<Clause> {
    find_clause_from(s, key, 0)
}

/// Whether a comparison with operator `op` holds of two values whose order
/// has the sign `order`. An unknown operator holds.
pub open spec fn holds(op: Seq<char>, order: int) -> bool {
    if op == seq!['>', '='] {
        order >= 0
    } else if op == seq!['<', '='] {
        order <= 0
    } else if op == seq!['>'] {
        order > 0
    } else if op == seq!['<'] {
        order < 0
    } else if op == seq!['=', '='] {
        order == 0
    } else if op == seq!['!', '='] {
        order != 0
    } else {
        true
    }
}

/// Whether `actual op required` holds of two versions given as text. Where
/// one of them is no version the comparison holds.
pub open spec fn compare_versions_spec(
    actual: Seq<char>,
    op: Seq<char>,
    required: Seq<char>,
) -> bool {
    match (parse_spec(actual), parse_spec(required)) {
        (Some(a), Some(b)) => holds(op, version_order(a, b)),
        _ => true,
    }
}

/// `python_version`
pub open spec fn key_python_version() -> Seq<char> {
    seq!['p', 'y', 't', 'h', 'o', 'n', '_', 'v', 'e', 'r', 's', 'i', 'o', 'n']
}

/// `sys_platform`
pub open spec fn key_sys_platform() -> Seq<char> {
    seq!['s', 'y', 's', '_', 'p', 'l', 'a', 't', 'f', 'o', 'r', 'm']
}

/// `platform_system`
pub open spec fn key_platform_system() -> Seq<char> {
    seq!['p', 'l', 'a', 't', 'f', 'o', 'r', 'm', '_', 's', 'y', 's', 't', 'e', 'm']
}

/// What the marker `m` evaluates to in an environment: the first comparison
/// of `python_version` decides, by the order of versions; failing that the
/// first of `sys_platform`, failing that the first of `platform_system`, both
/// by the order of texts; a marker with none of these holds.
pub open spec fn evaluate_spec(
    m: Seq<char>,
    python_version: Seq<char>,
    sys_platform: Seq<char>,
    platform_system: Seq<char>,
) -> bool {
    match find_clause(m, key_python_version()) {
        Some(c) => compare_versions_spec(python_version, c.operator, c.literal),
        None => match find_clause(m, key_sys_platform()) {
            Some(c) => holds(c.operator, text_order(sys_platform, c.literal)),
            None => match find_clause(m, key_platform_system()) {
                Some(c) => holds(c.operator, text_order(platform_system, c.literal)),
                None => true,
            },
        },
    }
}

fn is_quote_char(c: char) -> (r: bool)
    ensures
        r == is_quote(c),
{
    c == '"' || c == '\''
}

fn two_at(s: &Vec<char>, j: usize, a: char, b: char) -> (r: bool)
    requires
        j <= s.len(),
    ensures
        r == text_at(s@, j as int, seq![a, b]),
{
    let r = s.len() - j >= 2 && s[j] == a && s[j + 1] == b;
    proof {
        if r {
            assert(s@.subrange(j as int, j + 2) =~= seq![a, b]);
        } else if text_at(s@, j as int, seq![a, b]) {
            let t = s@.subrange(j as int, j + 2);
            assert(t[0] == a && t[1] == b);
        }
    }
    r
}

fn one_at(s: &Vec<char>, j: usize, a: char) -> (r: bool)
    requires
        j <= s.len(),
    ensures
        r == text_at(s@, j as int, seq![a]),
{
    let r = s.len() - j >= 1 && s[j] == a;
    proof {
        if r {
            assert(s@.subrange(j as int, j + 1) =~= seq![a]);
        } else if text_at(s@, j as int, seq![a]) {
            let t = s@.subrange(j as int, j + 1);
            assert(t[0] == a);
        }
    }
    r
}

fn comparison_at_pos(s: &Vec<char>, j: usize) -> (r: Option<Vec<char>>)
    requires
        j <= s.len(),
    ensures
        match r {
            Some(op) => comparison_at(s@, j as int) == Some(op@) && j + op.len() <= s.len(),
            None => comparison_at(s@, j as int) is None,
        },
{
    if two_at(s, j, '>', '=') {
        let op = vec!['>', '='];
        assert(op@ =~= seq!['>', '=']);
        Some(op)
    } else if two_at(s, j, '<', '=') {
        let op = vec!['<', '='];
        assert(op@ =~= seq!['<', '=']);
        Some(op)
    } else if one_at(s, j, '>') {
        let op = vec!['>'];
        assert(op@ =~= seq!['>']);
        Some(op)
    } else if one_at(s, j, '<') {
        let op = vec!['<'];
        assert(op@ =~= seq!['<']);
        Some(op)
    } else if two_at(s, j, '=', '=') {
        let op = vec!['=', '='];
        assert(op@ =~= seq!['=', '=']);
        Some(op)
    } else if two_at(s, j, '!', '=') {
        let op = vec!['!', '='];
        assert(op@ =~= seq!['!', '=']);
        Some(op)
    } else {
        None
    }
}

fn clause_at_pos(s: &Vec<char>, i: usize, key: &Vec<char>) -> (r: Option<(Vec<char>, Vec<char>)>)
    requires
        i <= s.len(),
    ensures
        match r {
            Some(c) => clause_at(s@, i as int, key@) == Some(
                Clause { operator: c.0@, literal: c.1@ },
            ),
            None => clause_at(s@, i as int, key@) is None,
        },
{
    if !crate::text::text_at_pos(s, i, key) {
        return None;
    }
    let j = crate::text::skip_spaces(s, i + key.len());
    match comparison_at_pos(s, j) {
        None => None,
        Some(op) => {
            let k = crate::text::skip_spaces(s, j + op.len());
            if k >= s.len() || !is_quote_char(s[k]) {
                return None;
            }
            let mut e: usize = k + 1;
            while e < s.len() && !is_quote_char(s[e])
                invariant
                    k + 1 <= e <= s.len(),
                    quote_end(s@, e as int) == quote_end(s@, k + 1),
                decreases s.len() - e,
            {
                e += 1;
            }
            if e > k + 1 && e < s.len() {
                Some((op, copy_range(s, k + 1, e)))
            } else {
                None
            }
        },
    }
}

fn find_clause_in(s: &Vec<char>, key: &Vec<char>) -> (r: Option<(Vec<char>, Vec<char>)>)
    ensures
        match r {
            Some(c) => find_clause(s@, key@) == Some(Clause { operator: c.0@, literal: c.1@ }),
            None => find_clause(s@, key@) is None,
        },
{
    let mut i: usize = 0;
    while i <= s.len()
        invariant
            i <= s.len() + 1,
            find_clause_from(s@, key@, i as int) == find_clause(s@, key@),
        decreases s.len() + 1 - i,
    {
        match clause_at_pos(s, i, key) {
            Some(c) => {
                return Some(c);
            },
            None => {},
        }
        if i == s.len() {
            assert(find_clause_from(s@, key@, i + 1) is None);
            return None;
        }
        i += 1;
    }
    None
}

fn holds_of(op: &Vec<char>, order: i8) -> (r: bool)
    ensures
        r == holds(op@, order as int),
{
    let two = op.len() == 2 && op[1] == '=';
    let one = op.len() == 1;
    proof {
        if op.len() == 2 {
            assert(op@ =~= seq![op@[0], op@[1]]);
        }
        if op.len() == 1 {
            assert(op@ =~= seq![op@[0]]);
        }
        assert(seq!['>', '='].len() == 2 && seq!['>', '='][0] == '>' && seq!['>', '='][1] == '=');
        assert(seq!['<', '='].len() == 2 && seq!['<', '='][0] == '<' && seq!['<', '='][1] == '=');
        assert(seq!['=', '='].len() == 2 && seq!['=', '='][0] == '=' && seq!['=', '='][1] == '=');
        assert(seq!['!', '='].len() == 2 && seq!['!', '='][0] == '!' && seq!['!', '='][1] == '=');
        assert(seq!['>'].len() == 1 && seq!['>'][0] == '>');
        assert(seq!['<'].len() == 1 && seq!['<'][0] == '<');
    }
    if two && op[0] == '>' {
        order >= 0
    } else if two && op[0] == '<' {
        order <= 0
    } else if one && op[0] == '>' {
        order > 0
    } else if one && op[0] == '<' {
        order < 0
    } else if two && op[0] == '=' {
        order == 0
    } else if two && op[0] == '!' {
        order != 0
    } else {
        true
    }
}

/// Whether `actual op required` holds of two versions given as text; a text
/// that is no version makes it hold.
pub fn compare_versions(actual: &str, op: &str, required: &str) -> (r: bool)
    ensures
        r == compare_versions_spec(actual@, op@, required@),
{
    let o = chars_of(op);
    match (Version::parse(actual), Version::parse(required)) {
        (Ok(a), Ok(b)) => holds_of(&o, a.order(&b)),
        _ => true,
    }
}

fn python_version_key() -> (r: Vec<char>)
    ensures
        r@ == key_python_version(),
{
    let r = vec!['p', 'y', 't', 'h', 'o', 'n', '_', 'v', 'e', 'r', 's', 'i', 'o', 'n'];
    assert(r@ =~= key_python_version());
    r
}

fn sys_platform_key() -> (r: Vec<char>)
    ensures
        r@ == key_sys_platform(),
{
    let r = vec!['s', 'y', 's', '_', 'p', 'l', 'a', 't', 'f', 'o', 'r', 'm'];
    assert(r@ =~= key_sys_platform());
    r
}

fn platform_system_key() -> (r: Vec<char>)
    ensures
        r@ == key_platform_system(),
{
    let r = vec!['p', 'l', 'a', 't', 'f', 'o', 'r', 'm', '_', 's', 'y', 's', 't', 'e', 'm'];
    assert(r@ =~= key_platform_system());
    r
}

impl EnvironmentMarker {
    /// Whether the marker holds in `env`. A marker in which no comparison is
    /// recognised holds.
    pub fn evaluate(&self, env: &TargetEnvironment) -> (r: bool)
        ensures
            r == evaluate_spec(
                self@,
                env.python_version@,
                env.sys_platform@,
                env.platform_system@,
            ),
    {
        let m = chars_of(self.raw.as_str());
        match find_clause_in(&m, &python_version_key()) {
            Some(c) => {
                let op = string_of(&c.0);
                let lit = string_of(&c.1);
                return compare_versions(env.python_version.as_str(), op.as_str(), lit.as_str());
            },
            None => {},
        }
        match find_clause_in(&m, &sys_platform_key()) {
            Some(c) => {
                let actual = chars_of(env.sys_platform.as_str());
                return holds_of(&c.0, order_chars(&actual, &c.1));
            },
            None => {},
        }
        match find_clause_in(&m, &platform_system_key()) {
            Some(c) => {
                let actual = chars_of(env.platform_system.as_str());
                holds_of(&c.0, order_chars(&actual, &c.1))
            },
            None => true,
        }
    }
}

} // verus!
