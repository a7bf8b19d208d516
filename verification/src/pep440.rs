//! Versions with epoch, release, pre-release, post-release, development and
//! local segments: their model, their order, their text form and their
//! grammar.

use crate::text::{
    chars_of, decimal, decimal_value, digits_end, fold, int_order, is_digit, is_digit_char,
    is_lower, fold_char, lemma_text_order_sign, lemma_text_order_transitive, order_text,
    order_then, order_u64, parse_number, push_decimal, push_str, same_text, scan_digits,
    string_of, string_of_range, text_order, trim_chars, trimmed, word_at, word_at_pos,
};
use vstd::prelude::*;

verus! {

/// A version. `pre` holds the normalised tag (`a`, `b` or `rc`) and number.
#[derive(Debug)]
pub struct Version {
    pub epoch: u64,
    pub release: Vec<u64>,
    pub pre: Option<(String, u64)>,
    pub post: Option<u64>,
    pub dev: Option<u64>,
    pub local: Option<String>,
}

/// The mathematical value of a [`Version`].
pub struct VersionView {
    pub epoch: u64,
    pub release: Seq<u64>,
    pub pre: Option<(Seq<char>, u64)>,
    pub post: Option<u64>,
    pub dev: Option<u64>,
    pub local: Option<Seq<char>>,
}

/// Why a text could not be read.
#[derive(Debug, Clone, Copy, PartialEq, Eq, Structural)]
pub enum ParseError {
    /// The text is no version.
    InvalidVersionFormat,
    /// The text is no requirement.
    InvalidRequirementFormat,
}

impl View for Version {
    type V = VersionView;

    open spec fn view(&self) -> VersionView {
        VersionView {
            epoch: self.epoch,
            release: self.release@,
            pre: match self.pre {
                Some(p) => Some((p.0@, p.1)),
                None => None,
            },
            post: self.post,
            dev: self.dev,
            local: match self.local {
                Some(l) => Some(l@),
                None => None,
            },
        }
    }
}

// ---------------------------------------------------------------------------
// Order
// ---------------------------------------------------------------------------

/// The release number at position `i`, where a missing one counts as 0.
pub open spec fn release_at(r: Seq<u64>, i: int) -> int {
    if 0 <= i < r.len() {
        r[i] as int
    } else {
        0
    }
}

/// Order of two release sequences from position `i` on, element by element,
/// the shorter one padded with zeros.
pub open spec fn release_order_from(a: Seq<u64>, b: Seq<u64>, i: int) -> int
    decreases a.len() + b.len() - i,
{
    if i < 0 || (i >= a.len() && i >= b.len()) {
        0
    } else {
        order_then(
            int_order(release_at(a, i), release_at(b, i)),
            release_order_from(a, b, i + 1),
        )
    }
}

/// Order of two release sequences.
pub open spec fn release_order(a: Seq<u64>, b: Seq<u64>) -> int {
    release_order_from(a, b, 0)
}

/// A version without a pre-release follows one with; two pre-releases go by
/// tag, then by number.
pub open spec fn pre_order(a: Option<(Seq<char>, u64)>, b: Option<(Seq<char>, u64)>) -> int {
    match (a, b) {
        (None, None) => 0,
        (Some(_), None) => -1,
        (None, Some(_)) => 1,
        (Some(x), Some(y)) => order_then(text_order(x.0, y.0), int_order(x.1 as int, y.1 as int)),
    }
}

/// The tag of a pre-release, the empty text where there is none.
pub open spec fn pre_tag(p: Option<(Seq<char>, u64)>) -> Seq<char> {
    match p {
        Some(x) => x.0,
        None => Seq::empty(),
    }
}

/// A version with a post-release follows one without; two go by number.
pub open spec fn post_order(a: Option<u64>, b: Option<u64>) -> int {
    match (a, b) {
        (None, None) => 0,
        (Some(_), None) => 1,
        (None, Some(_)) => -1,
        (Some(x), Some(y)) => int_order(x as int, y as int),
    }
}

/// A version without a development release follows one with; two go by
/// number.
pub open spec fn dev_order(a: Option<u64>, b: Option<u64>) -> int {
    match (a, b) {
        (None, None) => 0,
        (Some(_), None) => -1,
        (None, Some(_)) => 1,
        (Some(x), Some(y)) => int_order(x as int, y as int),
    }
}

/// A version with a local segment follows one without; two go by text.
pub open spec fn local_order(a: Option<Seq<char>>, b: Option<Seq<char>>) -> int {
    match (a, b) {
        (None, None) => 0,
        (Some(_), None) => 1,
        (None, Some(_)) => -1,
        (Some(x), Some(y)) => text_order(x, y),
    }
}

/// The order of two versions as a sign: -1 where `a` precedes `b`, 1 where it
/// follows, 0 where neither. Epoch decides first, then release, pre-release,
/// post-release, development release and local segment.
pub open spec fn version_order(a: VersionView, b: VersionView) -> int {
    order_then(
        int_order(a.epoch as int, b.epoch as int),
        order_then(
            release_order(a.release, b.release),
            order_then(
                pre_order(a.pre, b.pre),
                order_then(
                    post_order(a.post, b.post),
                    order_then(dev_order(a.dev, b.dev), local_order(a.local, b.local)),
                ),
            ),
        ),
    )
}

/// The order of releases yields a sign and reverses when its arguments are
/// exchanged.
pub proof fn lemma_release_order_sign(a: Seq<u64>, b: Seq<u64>, i: int)
    ensures
        -1 <= release_order_from(a, b, i) <= 1,
        release_order_from(a, b, i) == -release_order_from(b, a, i),
    decreases a.len() + b.len() - i,
{
    if !(i < 0 || (i >= a.len() && i >= b.len())) {
        lemma_release_order_sign(a, b, i + 1);
    }
}

/// A release is in neither order with itself.
pub proof fn lemma_release_order_reflexive(a: Seq<u64>, i: int)
    ensures
        release_order_from(a, a, i) == 0,
    decreases a.len() - i,
{
    if 0 <= i < a.len() {
        lemma_release_order_reflexive(a, i + 1);
    }
}

/// The order of releases is transitive, strictly so where one of the two
/// steps is strict.
pub proof fn lemma_release_order_transitive(a: Seq<u64>, b: Seq<u64>, c: Seq<u64>, i: int)
    requires
        0 <= i,
        release_order_from(a, b, i) <= 0,
        release_order_from(b, c, i) <= 0,
    ensures
        release_order_from(a, c, i) <= 0,
        release_order_from(a, b, i) < 0 || release_order_from(b, c, i) < 0
            ==> release_order_from(a, c, i) < 0,
    decreases a.len() + b.len() + c.len() - i,
{
    if i < a.len() || i < b.len() || i < c.len() {
        lemma_release_order_tail(a, b, i);
        lemma_release_order_tail(b, c, i);
        lemma_release_order_tail(a, c, i);
        if release_at(a, i) == release_at(b, i) && release_at(b, i) == release_at(c, i) {
            lemma_release_order_transitive(a, b, c, i + 1);
        }
    }
}

/// One step of the release order, also past the end of both sequences.
pub proof fn lemma_release_order_tail(a: Seq<u64>, b: Seq<u64>, i: int)
    requires
        0 <= i,
    ensures
        release_order_from(a, b, i) == order_then(
            int_order(release_at(a, i), release_at(b, i)),
            release_order_from(a, b, i + 1),
        ),
    decreases a.len() + b.len() - i,
{
    if i >= a.len() && i >= b.len() {
        assert(release_order_from(a, b, i + 1) == 0);
    }
}

/// The order of versions yields a sign, is reflexive, and reverses when its
/// arguments are exchanged.
pub proof fn lemma_version_order_antisymmetric(a: VersionView, b: VersionView)
    ensures
        -1 <= version_order(a, b) <= 1,
        version_order(a, b) == -version_order(b, a),
        version_order(a, a) == 0,
{
    lemma_release_order_sign(a.release, b.release, 0);
    lemma_release_order_reflexive(a.release, 0);
    if a.pre is Some {
        lemma_text_order_sign(pre_tag(a.pre), pre_tag(a.pre), 0);
        if b.pre is Some {
            lemma_text_order_sign(pre_tag(a.pre), pre_tag(b.pre), 0);
        }
    }
    if a.local is Some {
        lemma_text_order_sign(a.local->0, a.local->0, 0);
        if b.local is Some {
            lemma_text_order_sign(a.local->0, b.local->0, 0);
        }
    }
}

/// The order of versions is transitive: from `a <= b` and `b <= c` follows
/// `a <= c`, strictly so where one of the two is strict.
pub proof fn lemma_version_order_transitive(a: VersionView, b: VersionView, c: VersionView)
    requires
        version_order(a, b) <= 0,
        version_order(b, c) <= 0,
    ensures
        version_order(a, c) <= 0,
        version_order(a, b) < 0 || version_order(b, c) < 0 ==> version_order(a, c) < 0,
{
    lemma_release_order_sign(a.release, b.release, 0);
    lemma_release_order_sign(b.release, c.release, 0);
    lemma_release_order_sign(a.release, c.release, 0);
    if a.epoch == b.epoch && b.epoch == c.epoch {
        lemma_release_order_transitive(a.release, b.release, c.release, 0);
        if release_order(a.release, b.release) == 0 && release_order(b.release, c.release) == 0 {
            lemma_pre_order_transitive(a.pre, b.pre, c.pre);
            if pre_order(a.pre, b.pre) == 0 && pre_order(b.pre, c.pre) == 0 {
                if post_order(a.post, b.post) == 0 && post_order(b.post, c.post) == 0 {
                    if dev_order(a.dev, b.dev) == 0 && dev_order(b.dev, c.dev) == 0 {
                        lemma_local_order_transitive(a.local, b.local, c.local);
                    }
                }
            }
        }
    }
}

proof fn lemma_pre_order_transitive(
    a: Option<(Seq<char>, u64)>,
    b: Option<(Seq<char>, u64)>,
    c: Option<(Seq<char>, u64)>,
)
    ensures
        -1 <= pre_order(a, b) <= 1,
        -1 <= pre_order(b, c) <= 1,
        -1 <= pre_order(a, c) <= 1,
        pre_order(a, b) <= 0 && pre_order(b, c) <= 0 ==> pre_order(a, c) <= 0,
        pre_order(a, b) <= 0 && pre_order(b, c) <= 0 && (pre_order(a, b) < 0 || pre_order(b, c)
            < 0) ==> pre_order(a, c) < 0,
{
    if a is Some && b is Some {
        lemma_text_order_sign(pre_tag(a), pre_tag(b), 0);
    }
    if b is Some && c is Some {
        lemma_text_order_sign(pre_tag(b), pre_tag(c), 0);
    }
    if a is Some && c is Some {
        lemma_text_order_sign(pre_tag(a), pre_tag(c), 0);
    }
    if a is Some && b is Some && c is Some {
        if text_order(pre_tag(a), pre_tag(b)) <= 0 && text_order(pre_tag(b), pre_tag(c)) <= 0 {
            lemma_text_order_transitive(pre_tag(a), pre_tag(b), pre_tag(c), 0);
        }
    }
}

proof fn lemma_local_order_transitive(
    a: Option<Seq<char>>,
    b: Option<Seq<char>>,
    c: Option<Seq<char>>,
)
    ensures
        -1 <= local_order(a, b) <= 1,
        -1 <= local_order(b, c) <= 1,
        -1 <= local_order(a, c) <= 1,
        local_order(a, b) <= 0 && local_order(b, c) <= 0 ==> local_order(a, c) <= 0,
        local_order(a, b) <= 0 && local_order(b, c) <= 0 && (local_order(a, b) < 0
            || local_order(b, c) < 0) ==> local_order(a, c) < 0,
{
    if a is Some && b is Some {
        lemma_text_order_sign(a->0, b->0, 0);
    }
    if b is Some && c is Some {
        lemma_text_order_sign(b->0, c->0, 0);
    }
    if a is Some && c is Some {
        lemma_text_order_sign(a->0, c->0, 0);
    }
    if a is Some && b is Some && c is Some {
        if text_order(a->0, b->0) <= 0 && text_order(b->0, c->0) <= 0 {
            lemma_text_order_transitive(a->0, b->0, c->0, 0);
        }
    }
}

/// The sign of the order of two release sequences.
fn order_release(a: &Vec<u64>, b: &Vec<u64>) -> (r: i8)
    ensures
        r == release_order(a@, b@),
{
    let n = if a.len() > b.len() {
        a.len()
    } else {
        b.len()
    };
    let mut i: usize = 0;
    while i < n
        invariant
            i <= n,
            n >= a.len(),
            n >= b.len(),
            n == a.len() || n == b.len(),
            release_order_from(a@, b@, i as int) == release_order(a@, b@),
        decreases n - i,
    {
        let x: u64 = if i < a.len() {
            a[i]
        } else {
            0
        };
        let y: u64 = if i < b.len() {
            b[i]
        } else {
            0
        };
        if x < y {
            return -1;
        }
        if x > y {
            return 1;
        }
        i += 1;
    }
    0
}

fn order_pre(a: &Option<(String, u64)>, b: &Option<(String, u64)>) -> (r: i8)
    ensures
        r == pre_order(
            match *a {
                Some(p) => Some((p.0@, p.1)),
                None => None,
            },
            match *b {
                Some(p) => Some((p.0@, p.1)),
                None => None,
            },
        ),
{
    match (a, b) {
        (None, None) => 0,
        (Some(_), None) => -1,
        (None, Some(_)) => 1,
        (Some(x), Some(y)) => {
            let t = order_text(x.0.as_str(), y.0.as_str());
            if t != 0 {
                t
            } else {
                order_u64(x.1, y.1)
            }
        },
    }
}

fn order_local(a: &Option<String>, b: &Option<String>) -> (r: i8)
    ensures
        r == local_order(
            match *a {
                Some(l) => Some(l@),
                None => None,
            },
            match *b {
                Some(l) => Some(l@),
                None => None,
            },
        ),
{
    match (a, b) {
        (None, None) => 0,
        (Some(_), None) => 1,
        (None, Some(_)) => -1,
        (Some(x), Some(y)) => order_text(x.as_str(), y.as_str()),
    }
}

fn order_post(a: Option<u64>, b: Option<u64>) -> (r: i8)
    ensures
        r == post_order(a, b),
{
    match (a, b) {
        (None, None) => 0,
        (Some(_), None) => 1,
        (None, Some(_)) => -1,
        (Some(x), Some(y)) => order_u64(x, y),
    }
}

fn order_dev(a: Option<u64>, b: Option<u64>) -> (r: i8)
    ensures
        r == dev_order(a, b),
{
    match (a, b) {
        (None, None) => 0,
        (Some(_), None) => -1,
        (None, Some(_)) => 1,
        (Some(x), Some(y)) => order_u64(x, y),
    }
}

impl Version {
    /// The sign of the order of `self` and `other`.
    pub fn order(&self, other: &Version) -> (r: i8)
        ensures
            r == version_order(self@, other@),
    {
        let e = order_u64(self.epoch, other.epoch);
        if e != 0 {
            return e;
        }
        let rel = order_release(&self.release, &other.release);
        if rel != 0 {
            return rel;
        }
        let pre = order_pre(&self.pre, &other.pre);
        if pre != 0 {
            return pre;
        }
        let post = order_post(self.post, other.post);
        if post != 0 {
            return post;
        }
        let dev = order_dev(self.dev, other.dev);
        if dev != 0 {
            return dev;
        }
        order_local(&self.local, &other.local)
    }

    /// Whether `self` precedes `other`.
    pub fn precedes(&self, other: &Version) -> (r: bool)
        ensures
            r == (version_order(self@, other@) < 0),
    {
        self.order(other) < 0
    }

    /// Whether `self` does not follow `other`.
    pub fn at_most(&self, other: &Version) -> (r: bool)
        ensures
            r == (version_order(self@, other@) <= 0),
    {
        self.order(other) <= 0
    }

    /// Whether both versions have the same segments.
    pub fn same(&self, other: &Version) -> (r: bool)
        ensures
            r == (self@ == other@),
    {
        let release = same_numbers(&self.release, &other.release);
        let pre = match (&self.pre, &other.pre) {
            (None, None) => true,
            (Some(x), Some(y)) => same_text(x.0.as_str(), y.0.as_str()) && x.1 == y.1,
            _ => false,
        };
        let local = match (&self.local, &other.local) {
            (None, None) => true,
            (Some(x), Some(y)) => same_text(x.as_str(), y.as_str()),
            _ => false,
        };
        proof {
            if release && pre && local && self.epoch == other.epoch && self.post == other.post
                && self.dev == other.dev {
                assert(self@.pre == other@.pre);
                assert(self@.local == other@.local);
            }
        }
        self.epoch == other.epoch && release && pre && self.post == other.post && self.dev
            == other.dev && local
    }
}

/// Whether two vectors hold the same numbers.
pub fn same_numbers(a: &Vec<u64>, b: &Vec<u64>) -> (r: bool)
    ensures
        r == (a@ == b@),
{
    if a.len() != b.len() {
        return false;
    }
    let mut i: usize = 0;
    while i < a.len()
        invariant
            i <= a.len(),
            a.len() == b.len(),
            forall|j: int| 0 <= j < i ==> a[j] == b[j],
        decreases a.len() - i,
    {
        if a[i] != b[i] {
            return false;
        }
        i += 1;
    }
    assert(a@ =~= b@);
    true
}

/// A copy of a vector of numbers.
pub fn copy_numbers(a: &Vec<u64>) -> (r: Vec<u64>)
    ensures
        r@ == a@,
{
    let mut r: Vec<u64> = Vec::new();
    let mut i: usize = 0;
    while i < a.len()
        invariant
            i <= a.len(),
            r@ == a@.take(i as int),
        decreases a.len() - i,
    {
        r.push(a[i]);
        i += 1;
    }
    assert(a@.take(a.len() as int) == a@);
    r
}

impl Clone for Version {
    fn clone(&self) -> (r: Self)
        ensures
            r@ == self@,
    {
        Version {
            epoch: self.epoch,
            release: copy_numbers(&self.release),
            pre: match &self.pre {
                Some(p) => Some((p.0.clone(), p.1)),
                None => None,
            },
            post: self.post,
            dev: self.dev,
            local: match &self.local {
                Some(l) => Some(l.clone()),
                None => None,
            },
        }
    }
}

/// Two versions are equal where they compare equal: `1.0 == 1.0.0`.
/// Whether they have the same segments is what [`Version::same`] tells.
impl PartialEq for Version {
    fn eq(&self, other: &Version) -> (r: bool) {
        self.order(other) == 0
    }
}

impl vstd::std_specs::cmp::PartialEqSpecImpl for Version {
    open spec fn obeys_eq_spec() -> bool {
        true
    }

    open spec fn eq_spec(&self, other: &Version) -> bool {
        version_order(self@, other@) == 0
    }
}

impl Eq for Version {

}


// ---------------------------------------------------------------------------
// Text form
// ---------------------------------------------------------------------------

/// The release numbers in decimal, joined by dots.
pub open spec fn release_text(r: Seq<u64>) -> Seq<char>
    decreases r.len(),
{
    if r.len() == 0 {
        Seq::empty()
    } else if r.len() == 1 {
        decimal(r[0] as nat)
    } else {
        release_text(r.drop_last()) + seq!['.'] + decimal(r.last() as nat)
    }
}

/// The epoch and `!`, left out where the epoch is 0.
pub open spec fn epoch_text(e: u64) -> Seq<char> {
    if e > 0 {
        decimal(e as nat) + seq!['!']
    } else {
        Seq::empty()
    }
}

/// The pre-release tag and number.
pub open spec fn pre_text(p: Option<(Seq<char>, u64)>) -> Seq<char> {
    match p {
        Some(x) => x.0 + decimal(x.1 as nat),
        None => Seq::empty(),
    }
}

/// `.post` and the post-release number.
pub open spec fn post_text(p: Option<u64>) -> Seq<char> {
    match p {
        Some(n) => seq!['.', 'p', 'o', 's', 't'] + decimal(n as nat),
        None => Seq::empty(),
    }
}

/// `.dev` and the development release number.
pub open spec fn dev_text(d: Option<u64>) -> Seq<char> {
    match d {
        Some(n) => seq!['.', 'd', 'e', 'v'] + decimal(n as nat),
        None => Seq::empty(),
    }
}

/// `+` and the local segment.
pub open spec fn local_text(l: Option<Seq<char>>) -> Seq<char> {
    match l {
        Some(t) => seq!['+'] + t,
        None => Seq::empty(),
    }
}

/// The canonical text of a version.
pub open spec fn format_spec(v: VersionView) -> Seq<char> {
    epoch_text(v.epoch) + release_text(v.release) + pre_text(v.pre) + post_text(v.post)
        + dev_text(v.dev) + local_text(v.local)
}

fn push_release(out: &mut Vec<char>, r: &Vec<u64>)
    ensures
        final(out)@ == old(out)@ + release_text(r@),
{
    let ghost before = out@;
    let mut i: usize = 0;
    while i < r.len()
        invariant
            i <= r.len(),
            out@ == before + release_text(r@.take(i as int)),
        decreases r.len() - i,
    {
        if i > 0 {
            out.push('.');
        }
        push_decimal(out, r[i]);
        proof {
            let next = r@.take(i + 1);
            assert(next.drop_last() == r@.take(i as int));
            assert(next.last() == r@[i as int]);
            if i == 0 {
                assert(release_text(r@.take(0)) == Seq::<char>::empty());
            }
            assert(out@ == before + release_text(next));
        }
        i += 1;
    }
    assert(r@.take(r.len() as int) == r@);
}

fn push_epoch(out: &mut Vec<char>, e: u64)
    ensures
        final(out)@ == old(out)@ + epoch_text(e),
{
    if e > 0 {
        push_decimal(out, e);
        out.push('!');
        assert(out@ == old(out)@ + (decimal(e as nat) + seq!['!']));
    } else {
        assert(out@ == old(out)@ + Seq::<char>::empty());
    }
}

fn push_pre(out: &mut Vec<char>, p: &Option<(String, u64)>)
    ensures
        final(out)@ == old(out)@ + pre_text(
            match *p {
                Some(x) => Some((x.0@, x.1)),
                None => None,
            },
        ),
{
    match p {
        Some(x) => {
            push_str(out, x.0.as_str());
            push_decimal(out, x.1);
            assert(out@ == old(out)@ + (x.0@ + decimal(x.1 as nat)));
        },
        None => {
            assert(out@ == old(out)@ + Seq::<char>::empty());
        },
    }
}

fn push_post(out: &mut Vec<char>, p: Option<u64>)
    ensures
        final(out)@ == old(out)@ + post_text(p),
{
    match p {
        Some(n) => {
            out.push('.');
            out.push('p');
            out.push('o');
            out.push('s');
            out.push('t');
            push_decimal(out, n);
            assert(out@ == old(out)@ + (seq!['.', 'p', 'o', 's', 't'] + decimal(n as nat)));
        },
        None => {
            assert(out@ == old(out)@ + Seq::<char>::empty());
        },
    }
}

fn push_dev(out: &mut Vec<char>, d: Option<u64>)
    ensures
        final(out)@ == old(out)@ + dev_text(d),
{
    match d {
        Some(n) => {
            out.push('.');
            out.push('d');
            out.push('e');
            out.push('v');
            push_decimal(out, n);
            assert(out@ == old(out)@ + (seq!['.', 'd', 'e', 'v'] + decimal(n as nat)));
        },
        None => {
            assert(out@ == old(out)@ + Seq::<char>::empty());
        },
    }
}

fn push_local(out: &mut Vec<char>, l: &Option<String>)
    ensures
        final(out)@ == old(out)@ + local_text(
            match *l {
                Some(t) => Some(t@),
                None => None,
            },
        ),
{
    match l {
        Some(t) => {
            out.push('+');
            push_str(out, t.as_str());
            assert(out@ == old(out)@ + (seq!['+'] + t@));
        },
        None => {
            assert(out@ == old(out)@ + Seq::<char>::empty());
        },
    }
}

impl Version {
    /// The canonical text of the version.
    pub fn format(&self) -> (r: String)
        ensures
            r@ == format_spec(self@),
    {
        let mut out: Vec<char> = Vec::new();
        push_epoch(&mut out, self.epoch);
        assert(out@ == epoch_text(self@.epoch));
        push_release(&mut out, &self.release);
        push_pre(&mut out, &self.pre);
        push_post(&mut out, self.post);
        push_dev(&mut out, self.dev);
        push_local(&mut out, &self.local);
        string_of(&out)
    }

    /// The canonical text of the version.
    pub fn to_string(&self) -> (r: String)
        ensures
            r@ == format_spec(self@),
    {
        self.format()
    }
}

// ---------------------------------------------------------------------------
// Grammar
// ---------------------------------------------------------------------------

/// One of the separators `-`, `_` and `.`.
pub open spec fn is_sep(c: char) -> bool {
    c == '-' || c == '_' || c == '.'
}

/// The position after an optional separator at `i`.
pub open spec fn sep_end(s: Seq<char>, i: int) -> int {
    if 0 <= i < s.len() && is_sep(s[i]) {
        i + 1
    } else {
        i
    }
}

/// The number written by the digits at `i`; 0 where there is none.
pub open spec fn number_at(s: Seq<char>, i: int) -> nat {
    decimal_value(s.subrange(i, digits_end(s, i)))
}

/// Whether a number can be held in 64 bits.
pub open spec fn fits(n: nat) -> bool {
    n <= u64::MAX
}

/// The pre-release word at `i`, letter case aside: its normalised tag and
/// its length. `alpha` stands for `a`, `beta` for `b`, and `c`, `pre` and
/// `preview` for `rc`.
pub open spec fn pre_word(s: Seq<char>, i: int) -> Option<(Seq<char>, int)> {
    if word_at(s, i, seq!['a', 'l', 'p', 'h', 'a']) {
        Some((seq!['a'], 5))
    } else if word_at(s, i, seq!['a']) {
        Some((seq!['a'], 1))
    } else if word_at(s, i, seq!['b', 'e', 't', 'a']) {
        Some((seq!['b'], 4))
    } else if word_at(s, i, seq!['b']) {
        Some((seq!['b'], 1))
    } else if word_at(s, i, seq!['p', 'r', 'e', 'v', 'i', 'e', 'w']) {
        Some((seq!['r', 'c'], 7))
    } else if word_at(s, i, seq!['p', 'r', 'e']) {
        Some((seq!['r', 'c'], 3))
    } else if word_at(s, i, seq!['r', 'c']) {
        Some((seq!['r', 'c'], 2))
    } else if word_at(s, i, seq!['c']) {
        Some((seq!['r', 'c'], 1))
    } else {
        None
    }
}

/// The length of the post-release word (`post`, `rev` or `r`) at `i`.
pub open spec fn post_word(s: Seq<char>, i: int) -> Option<int> {
    if word_at(s, i, seq!['p', 'o', 's', 't']) {
        Some(4)
    } else if word_at(s, i, seq!['r', 'e', 'v']) {
        Some(3)
    } else if word_at(s, i, seq!['r']) {
        Some(1)
    } else {
        None
    }
}

/// What a segment of the grammar yields: whether it is there, its tag (the
/// pre-release only), its number, and where the text after it begins.
pub struct Segment {
    pub present: bool,
    pub tag: Seq<char>,
    pub number: nat,
    pub end: int,
}

/// The segment that is not there, at `i`.
pub open spec fn no_segment(i: int) -> Segment {
    Segment { present: false, tag: Seq::empty(), number: 0, end: i }
}

/// A word followed by an optional separator and an optional number.
pub open spec fn word_segment(s: Seq<char>, after_word: int, tag: Seq<char>) -> Segment {
    let k = sep_end(s, after_word);
    Segment { present: true, tag, number: number_at(s, k), end: digits_end(s, k) }
}

/// The pre-release at `i`: an optional separator, the word, an optional
/// separator and an optional number.
pub open spec fn pre_at(s: Seq<char>, i: int) -> Segment {
    let j = sep_end(s, i);
    match pre_word(s, j) {
        Some(w) => word_segment(s, j + w.1, w.0),
        None => no_segment(i),
    }
}

/// Whether a post-release of the form `-N` stands at `i`.
pub open spec fn post_dash(s: Seq<char>, i: int) -> bool {
    0 <= i && i + 1 < s.len() && s[i] == '-' && is_digit(s[i + 1])
}

/// The post-release at `i`: either `-N`, or an optional separator, the word,
/// an optional separator and an optional number.
pub open spec fn post_at(s: Seq<char>, i: int) -> Segment {
    if post_dash(s, i) {
        Segment {
            present: true,
            tag: Seq::empty(),
            number: number_at(s, i + 1),
            end: digits_end(s, i + 1),
        }
    } else {
        let j = sep_end(s, i);
        match post_word(s, j) {
            Some(n) => word_segment(s, j + n, Seq::empty()),
            None => no_segment(i),
        }
    }
}

/// The development release at `i`: an optional separator, `dev`, an optional
/// separator and an optional number.
pub open spec fn dev_at(s: Seq<char>, i: int) -> Segment {
    let j = sep_end(s, i);
    if word_at(s, j, seq!['d', 'e', 'v']) {
        word_segment(s, j + 3, Seq::empty())
    } else {
        no_segment(i)
    }
}

/// Whether a further release number follows the one that ends at `e`.
pub open spec fn release_more(s: Seq<char>, e: int) -> bool {
    0 <= e && e + 1 < s.len() && s[e] == '.' && is_digit(s[e + 1])
}

/// Where the release that starts at `i` ends.
pub open spec fn release_end(s: Seq<char>, i: int) -> int
    decreases s.len() - i,
{
    let e = digits_end(s, i);
    if 0 <= i <= e && release_more(s, e) {
        release_end(s, e + 1)
    } else {
        e
    }
}

/// The numbers of the release that starts at `i`.
pub open spec fn release_values(s: Seq<char>, i: int) -> Seq<u64>
    decreases s.len() - i,
{
    let e = digits_end(s, i);
    if 0 <= i <= e && release_more(s, e) {
        seq![number_at(s, i) as u64] + release_values(s, e + 1)
    } else {
        seq![number_at(s, i) as u64]
    }
}

/// Whether every number of the release that starts at `i` fits in 64 bits.
pub open spec fn release_fits(s: Seq<char>, i: int) -> bool
    decreases s.len() - i,
{
    let e = digits_end(s, i);
    if 0 <= i <= e && release_more(s, e) {
        fits(number_at(s, i)) && release_fits(s, e + 1)
    } else {
        fits(number_at(s, i))
    }
}

/// A character of a local segment: a digit or a letter, letter case aside.
pub open spec fn is_local_char(c: char) -> bool {
    is_digit(c) || is_lower(fold(c))
}

/// A local segment: runs of letters and digits, joined by single separators.
pub open spec fn valid_local(t: Seq<char>) -> bool {
    &&& t.len() > 0
    &&& is_local_char(t[0])
    &&& is_local_char(t[t.len() - 1])
    &&& forall|k: int| 0 <= k < t.len() ==> is_local_char(#[trigger] t[k]) || is_sep(t[k])
    &&& forall|k: int| 0 <= k < t.len() - 1 ==> !(is_sep(#[trigger] t[k]) && is_sep(t[k + 1]))
}

/// Where the epoch or release begins: after an optional `v`.
pub open spec fn epoch_start(s: Seq<char>) -> int {
    if word_at(s, 0, seq!['v']) {
        1
    } else {
        0
    }
}

/// Whether the text holds an epoch: digits followed by `!`.
pub open spec fn has_epoch(s: Seq<char>) -> bool {
    let i = epoch_start(s);
    let e = digits_end(s, i);
    i < e < s.len() && s[e] == '!'
}

/// Where the release begins.
pub open spec fn release_start(s: Seq<char>) -> int {
    if has_epoch(s) {
        digits_end(s, epoch_start(s)) + 1
    } else {
        epoch_start(s)
    }
}

/// The epoch, 0 where the text holds none.
pub open spec fn epoch_of(s: Seq<char>) -> nat {
    if has_epoch(s) {
        number_at(s, epoch_start(s))
    } else {
        0
    }
}

/// The pre-release segment of the text.
pub open spec fn pre_of(s: Seq<char>) -> Segment {
    pre_at(s, release_end(s, release_start(s)))
}

/// The post-release segment of the text.
pub open spec fn post_of(s: Seq<char>) -> Segment {
    post_at(s, pre_of(s).end)
}

/// The development release segment of the text.
pub open spec fn dev_of(s: Seq<char>) -> Segment {
    dev_at(s, post_of(s).end)
}

/// Whether what follows the development release is nothing, or `+` and a
/// local segment.
pub open spec fn local_ok(s: Seq<char>) -> bool {
    let i = dev_of(s).end;
    i == s.len() || (0 <= i < s.len() && s[i] == '+' && valid_local(
        s.subrange(i + 1, s.len() as int),
    ))
}

/// The local segment of the text.
pub open spec fn local_of(s: Seq<char>) -> Option<Seq<char>> {
    let i = dev_of(s).end;
    if i == s.len() {
        None
    } else {
        Some(s.subrange(i + 1, s.len() as int))
    }
}

/// Whether `s` is a version: an optional `v`, an optional epoch, a release,
/// optional pre-release, post-release and development release, an optional
/// local segment and nothing more, with every number within 64 bits.
pub open spec fn is_version_text(s: Seq<char>) -> bool {
    &&& digits_end(s, release_start(s)) > release_start(s)
    &&& local_ok(s)
    &&& fits(epoch_of(s))
    &&& release_fits(s, release_start(s))
    &&& fits(pre_of(s).number)
    &&& fits(post_of(s).number)
    &&& fits(dev_of(s).number)
}

/// The version that the text `s`, free of surrounding whitespace, denotes.
pub open spec fn version_of(s: Seq<char>) -> VersionView {
    VersionView {
        epoch: epoch_of(s) as u64,
        release: release_values(s, release_start(s)),
        pre: if pre_of(s).present {
            Some((pre_of(s).tag, pre_of(s).number as u64))
        } else {
            None
        },
        post: if post_of(s).present {
            Some(post_of(s).number as u64)
        } else {
            None
        },
        dev: if dev_of(s).present {
            Some(dev_of(s).number as u64)
        } else {
            None
        },
        local: local_of(s),
    }
}

/// What parsing `text` yields: the version it denotes once surrounding
/// whitespace is removed, or nothing where it is no version.
pub open spec fn parse_spec(text: Seq<char>) -> Option<VersionView> {
    if is_version_text(trimmed(text)) {
        Some(version_of(trimmed(text)))
    } else {
        None
    }
}

// ---------------------------------------------------------------------------
// Parser
// ---------------------------------------------------------------------------

/// A segment as the parser found it. `number` is `None` where the digits
/// denote a number beyond 64 bits.
struct Scan {
    present: bool,
    tag: Vec<char>,
    number: Option<u64>,
    end: usize,
}

/// Whether the parser's finding `r` is the segment `g` of the grammar.
spec fn scan_is(r: Scan, g: Segment) -> bool {
    &&& r.present == g.present
    &&& r.tag@ == g.tag
    &&& r.end == g.end
    &&& match r.number {
        Some(n) => n == g.number,
        None => !fits(g.number),
    }
}

fn is_sep_char(c: char) -> (r: bool)
    ensures
        r == is_sep(c),
{
    c == '-' || c == '_' || c == '.'
}

fn is_local(c: char) -> (r: bool)
    ensures
        r == is_local_char(c),
{
    if is_digit_char(c) {
        true
    } else {
        let f = fold_char(c);
        f >= 'a' && f <= 'z'
    }
}

fn skip_sep(s: &Vec<char>, i: usize) -> (r: usize)
    requires
        i <= s.len(),
    ensures
        r == sep_end(s@, i as int),
        i <= r <= s.len(),
{
    if i < s.len() && is_sep_char(s[i]) {
        i + 1
    } else {
        i
    }
}

fn scan_number(s: &Vec<char>, i: usize) -> (r: (Option<u64>, usize))
    requires
        i <= s.len(),
    ensures
        r.1 == digits_end(s@, i as int),
        i <= r.1 <= s.len(),
        match r.0 {
            Some(n) => n == number_at(s@, i as int),
            None => !fits(number_at(s@, i as int)),
        },
{
    let e = scan_digits(s, i);
    (parse_number(s, i, e), e)
}

fn scan_word_segment(s: &Vec<char>, after_word: usize, tag: Vec<char>) -> (r: Scan)
    requires
        after_word <= s.len(),
    ensures
        scan_is(r, word_segment(s@, after_word as int, tag@)),
        r.end <= s.len(),
{
    let k = skip_sep(s, after_word);
    let (number, end) = scan_number(s, k);
    Scan { present: true, tag, number, end }
}

fn absent(i: usize) -> (r: Scan)
    ensures
        scan_is(r, no_segment(i as int)),
        r.end == i,
{
    Scan { present: false, tag: Vec::new(), number: Some(0), end: i }
}

fn scan_pre_word(s: &Vec<char>, j: usize) -> (r: Option<(Vec<char>, usize)>)
    requires
        j <= s.len(),
    ensures
        match r {
            Some(w) => pre_word(s@, j as int) == Some((w.0@, w.1 as int)) && j + w.1 <= s.len(),
            None => pre_word(s@, j as int) is None,
        },
{
    if word_at_pos(s, j, &vec!['a', 'l', 'p', 'h', 'a']) {
        Some((vec!['a'], 5))
    } else if word_at_pos(s, j, &vec!['a']) {
        Some((vec!['a'], 1))
    } else if word_at_pos(s, j, &vec!['b', 'e', 't', 'a']) {
        Some((vec!['b'], 4))
    } else if word_at_pos(s, j, &vec!['b']) {
        Some((vec!['b'], 1))
    } else if word_at_pos(s, j, &vec!['p', 'r', 'e', 'v', 'i', 'e', 'w']) {
        Some((vec!['r', 'c'], 7))
    } else if word_at_pos(s, j, &vec!['p', 'r', 'e']) {
        Some((vec!['r', 'c'], 3))
    } else if word_at_pos(s, j, &vec!['r', 'c']) {
        Some((vec!['r', 'c'], 2))
    } else if word_at_pos(s, j, &vec!['c']) {
        Some((vec!['r', 'c'], 1))
    } else {
        None
    }
}

fn scan_post_word(s: &Vec<char>, j: usize) -> (r: Option<usize>)
    requires
        j <= s.len(),
    ensures
        match r {
            Some(n) => post_word(s@, j as int) == Some(n as int) && j + n <= s.len(),
            None => post_word(s@, j as int) is None,
        },
{
    if word_at_pos(s, j, &vec!['p', 'o', 's', 't']) {
        Some(4)
    } else if word_at_pos(s, j, &vec!['r', 'e', 'v']) {
        Some(3)
    } else if word_at_pos(s, j, &vec!['r']) {
        Some(1)
    } else {
        None
    }
}

fn scan_pre(s: &Vec<char>, i: usize) -> (r: Scan)
    requires
        i <= s.len(),
    ensures
        scan_is(r, pre_at(s@, i as int)),
        r.end <= s.len(),
{
    let j = skip_sep(s, i);
    match scan_pre_word(s, j) {
        Some(w) => scan_word_segment(s, j + w.1, w.0),
        None => absent(i),
    }
}

fn scan_post(s: &Vec<char>, i: usize) -> (r: Scan)
    requires
        i <= s.len(),
    ensures
        scan_is(r, post_at(s@, i as int)),
        r.end <= s.len(),
{
    if i < s.len() && s.len() - i > 1 && s[i] == '-' && is_digit_char(s[i + 1]) {
        let (number, end) = scan_number(s, i + 1);
        Scan { present: true, tag: Vec::new(), number, end }
    } else {
        let j = skip_sep(s, i);
        match scan_post_word(s, j) {
            Some(n) => scan_word_segment(s, j + n, Vec::new()),
            None => absent(i),
        }
    }
}

fn scan_dev(s: &Vec<char>, i: usize) -> (r: Scan)
    requires
        i <= s.len(),
    ensures
        scan_is(r, dev_at(s@, i as int)),
        r.end <= s.len(),
{
    let j = skip_sep(s, i);
    if word_at_pos(s, j, &vec!['d', 'e', 'v']) {
        scan_word_segment(s, j + 3, Vec::new())
    } else {
        absent(i)
    }
}

/// The release that starts at `i`, and where it ends; nothing where one of
/// its numbers exceeds 64 bits.
fn scan_release(s: &Vec<char>, i: usize) -> (r: Option<(Vec<u64>, usize)>)
    requires
        i <= s.len(),
    ensures
        match r {
            Some(f) => {
                &&& release_fits(s@, i as int)
                &&& f.0@ == release_values(s@, i as int)
                &&& f.1 == release_end(s@, i as int)
                &&& f.1 <= s.len()
            },
            None => !release_fits(s@, i as int),
        },
{
    let mut vals: Vec<u64> = Vec::new();
    let mut cur: usize = i;
    loop
        invariant
            i <= cur <= s.len(),
            release_end(s@, cur as int) == release_end(s@, i as int),
            release_values(s@, i as int) == vals@ + release_values(s@, cur as int),
            release_fits(s@, i as int) == release_fits(s@, cur as int),
        decreases s.len() - cur,
    {
        let (num, e) = scan_number(s, cur);
        let more = e < s.len() && s.len() - e > 1 && s[e] == '.' && is_digit_char(s[e + 1]);
        assert(more == release_more(s@, e as int));
        match num {
            None => {
                return None;
            },
            Some(n) => {
                let ghost before = vals@;
                vals.push(n);
                if !more {
                    assert(before + seq![n] == vals@);
                    return Some((vals, e));
                }
                assert(before + (seq![n] + release_values(s@, e + 1)) == vals@ + release_values(
                    s@,
                    e + 1,
                ));
                cur = e + 1;
            },
        }
    }
}

/// Whether `s[lo..]` is a local segment.
fn check_local(s: &Vec<char>, lo: usize) -> (r: bool)
    requires
        lo <= s.len(),
    ensures
        r == valid_local(s@.subrange(lo as int, s.len() as int)),
{
    let ghost t = s@.subrange(lo as int, s.len() as int);
    let n = s.len();
    if lo == n {
        return false;
    }
    assert(t[0] == s@[lo as int]);
    assert(t[t.len() - 1] == s@[n - 1]);
    if !is_local(s[lo]) || !is_local(s[n - 1]) {
        return false;
    }
    let mut k: usize = lo;
    while k < n
        invariant
            lo <= k <= n,
            n == s.len(),
            t == s@.subrange(lo as int, n as int),
            forall|j: int| 0 <= j < k - lo ==> is_local_char(#[trigger] t[j]) || is_sep(t[j]),
            forall|j: int| 0 <= j < k - lo - 1 ==> !(is_sep(#[trigger] t[j]) && is_sep(t[j + 1])),
        decreases n - k,
    {
        let c = s[k];
        assert(t[k - lo] == c);
        if !is_local(c) && !is_sep_char(c) {
            return false;
        }
        if k > lo && is_sep_char(c) && is_sep_char(s[k - 1]) {
            assert(t[k - lo - 1] == s@[k - 1]);
            assert(is_sep(t[k - lo - 1]) && is_sep(t[k - lo - 1 + 1]));
            return false;
        }
        proof {
            if k > lo {
                assert(t[k - lo - 1] == s@[k - 1]);
            }
        }
        k += 1;
    }
    true
}

/// The version that `s`, free of surrounding whitespace, denotes.
fn parse_body(s: &Vec<char>) -> (r: Option<Version>)
    ensures
        match r {
            Some(v) => is_version_text(s@) && v@ == version_of(s@),
            None => !is_version_text(s@),
        },
{
    let n = s.len();
    let i0: usize = if word_at_pos(s, 0, &vec!['v']) {
        1
    } else {
        0
    };
    let (epoch_num, e) = scan_number(s, i0);
    let with_epoch = i0 < e && e < n && s[e] == '!';
    assert(with_epoch == has_epoch(s@));
    let i1: usize = if with_epoch {
        e + 1
    } else {
        i0
    };
    let first_end = scan_digits(s, i1);
    if first_end == i1 {
        return None;
    }
    let epoch: u64 = if with_epoch {
        match epoch_num {
            Some(x) => x,
            None => {
                return None;
            },
        }
    } else {
        0
    };
    let (release, i2) = match scan_release(s, i1) {
        Some(f) => f,
        None => {
            return None;
        },
    };
    let pre = scan_pre(s, i2);
    let post = scan_post(s, pre.end);
    let dev = scan_dev(s, post.end);
    let i5 = dev.end;
    let local: Option<String> = if i5 == n {
        None
    } else if s[i5] == '+' && check_local(s, i5 + 1) {
        Some(string_of_range(s, i5 + 1, n))
    } else {
        return None;
    };
    let pre_value: Option<(String, u64)> = if pre.present {
        match pre.number {
            Some(x) => Some((string_of(&pre.tag), x)),
            None => {
                return None;
            },
        }
    } else {
        None
    };
    let post_value: Option<u64> = if post.present {
        match post.number {
            Some(x) => Some(x),
            None => {
                return None;
            },
        }
    } else {
        None
    };
    let dev_value: Option<u64> = if dev.present {
        match dev.number {
            Some(x) => Some(x),
            None => {
                return None;
            },
        }
    } else {
        None
    };
    Some(Version { epoch, release, pre: pre_value, post: post_value, dev: dev_value, local })
}

impl Version {
    /// Reads a version. Surrounding whitespace is ignored. The text is
    /// accepted exactly where the grammar accepts it and every number fits in
    /// 64 bits; the result is then the version it denotes.
    pub fn parse(version_str: &str) -> (r: Result<Version, ParseError>)
        ensures
            match r {
                Ok(v) => parse_spec(version_str@) == Some(v@) && crate::roundtrip::well_formed(v@),
                Err(e) => e == ParseError::InvalidVersionFormat && parse_spec(version_str@)
                    is None,
            },
    {
        proof {
            crate::roundtrip::lemma_parse_well_formed(version_str@);
        }
        let all = chars_of(version_str);
        let s = trim_chars(&all);
        match parse_body(&s) {
            Some(v) => Ok(v),
            None => Err(ParseError::InvalidVersionFormat),
        }
    }
}

} // verus!
