//! Simple patterns over the bytes of a text: `*` for any run, `?` for any
//! one byte, classes such as `[abc]`, `[a-z]` and `[^abc]`, `\` to take the
//! next byte literally, and the anchors `^` and `$`.

use crate::text::{chars_of, push_range, string_of, text_at, text_at_pos};
use vstd::prelude::*;
use vstd::string::StrSliceExecFns;
use vstd::string::StringSliceAdditionalSpecFns;

verus! {

/// A pattern: its bytes without the anchors, and whether it was anchored at
/// the start and at the end.
#[derive(Debug)]
pub struct Pattern {
    pub pattern: Vec<u8>,
    pub anchor_start: bool,
    pub anchor_end: bool,
}

/// The first position at or after `i` that does not hold `b`.
pub open spec fn byte_run_end(s: Seq<u8>, b: u8, i: int) -> int
    decreases s.len() - i,
{
    if 0 <= i < s.len() && s[i] == b {
        byte_run_end(s, b, i + 1)
    } else {
        i
    }
}

/// Where the run of `b` that ends at `hi` begins, not below `lo`.
pub open spec fn byte_run_start(s: Seq<u8>, b: u8, lo: int, hi: int) -> int
    decreases hi,
{
    if 0 <= lo < hi <= s.len() && s[hi - 1] == b {
        byte_run_start(s, b, lo, hi - 1)
    } else {
        hi
    }
}

/// The pattern text without its leading `^` and its trailing `$`.
pub open spec fn pattern_body(p: Seq<u8>) -> Seq<u8> {
    let lo = byte_run_end(p, 0x5e, 0);
    p.subrange(lo, byte_run_start(p, 0x24, lo, p.len() as int))
}

/// The first position at or after `i` that holds `]`, if any.
pub open spec fn class_end(p: Seq<u8>, i: int) -> Option<int>
    decreases p.len() - i,
{
    if 0 <= i < p.len() {
        if p[i] == 0x5d {
            Some(i)
        } else {
            class_end(p, i + 1)
        }
    } else {
        None
    }
}

/// Whether `ch` is among the members of a class that stand in `p` from `i`
/// up to `end`: a member is a single byte, or a range `a-b` where the `b`
/// still stands before `end`.
pub open spec fn class_hit(p: Seq<u8>, ch: u8, i: int, end: int) -> bool
    decreases end - i,
{
    if 0 <= i < end <= p.len() {
        if i + 2 < end && p[i + 1] == 0x2d {
            (p[i] <= ch && ch <= p[i + 2]) || class_hit(p, ch, i + 3, end)
        } else {
            ch == p[i] || class_hit(p, ch, i + 1, end)
        }
    } else {
        false
    }
}

/// What the class that begins with the `[` at `pp` says of `ch`: whether it
/// matches, and how many pattern bytes the class takes. There is no class
/// where no `]` follows or it follows at once.
pub open spec fn class_at(p: Seq<u8>, pp: int, ch: u8) -> ClassMatch {
    match class_end(p, pp) {
        None => ClassMatch { found: false, hit: false, len: 0 },
        Some(e) => if e - pp < 2 {
            ClassMatch { found: false, hit: false, len: 0 }
        } else {
            let negate = p[pp + 1] == 0x5e;
            let start = if negate {
                pp + 2
            } else {
                pp + 1
            };
            ClassMatch { found: true, hit: class_hit(p, ch, start, e) != negate, len: e - pp + 1 }
        },
    }
}

/// What a class says of a byte: whether there is a class at all, whether it
/// matches the byte, and how many pattern bytes it takes.
pub struct ClassMatch {
    pub found: bool,
    pub hit: bool,
    pub len: int,
}

/// Whether all pattern bytes from `pp` on are `*`.
pub open spec fn all_stars(p: Seq<u8>, pp: int) -> bool {
    forall|k: int| pp <= k < p.len() ==> #[trigger] p[k] == 0x2a
}

/// Whether the pattern from `pp` on matches the text from `tp` on. At its
/// end the pattern matches if it is not anchored at the end or the text has
/// ended too; a text that has ended is matched by `*`s only. A `*` matches
/// nothing, or one byte and then what `*` matches.
pub open spec fn match_from(t: Seq<u8>, p: Seq<u8>, anchor_end: bool, tp: int, pp: int) -> bool
    decreases p.len() - pp, t.len() - tp,
{
    if pp < 0 || tp < 0 {
        false
    } else if pp >= p.len() {
        !anchor_end || tp >= t.len()
    } else if tp >= t.len() {
        all_stars(p, pp)
    } else if p[pp] == 0x2a {
        match_from(t, p, anchor_end, tp, pp + 1) || match_from(t, p, anchor_end, tp + 1, pp)
    } else if p[pp] == 0x3f {
        match_from(t, p, anchor_end, tp + 1, pp + 1)
    } else if p[pp] == 0x5b {
        if class_at(p, pp, t[tp]).found && class_at(p, pp, t[tp]).hit && 1 <= class_at(
            p,
            pp,
            t[tp],
        ).len <= p.len() - pp {
            match_from(t, p, anchor_end, tp + 1, pp + class_at(p, pp, t[tp]).len)
        } else {
            false
        }
    } else if p[pp] == 0x5c {
        pp + 1 < p.len() && t[tp] == p[pp + 1] && match_from(t, p, anchor_end, tp + 1, pp + 2)
    } else {
        t[tp] == p[pp] && match_from(t, p, anchor_end, tp + 1, pp + 1)
    }
}

/// Whether a `*` stands among the first `n` pattern bytes.
pub open spec fn star_before(p: Seq<u8>, n: int) -> bool {
    exists|k: int| 0 <= k < n && k < p.len() && #[trigger] p[k] == 0x2a
}

/// How many text bytes the pattern is taken to use up from `start`: all that
/// are left where a `*` stands early enough, else one for each pattern byte
/// while text is left.
pub open spec fn consumed(t: Seq<u8>, p: Seq<u8>, start: int) -> int {
    let left = t.len() - start;
    if left <= 0 {
        0
    } else if star_before(p, left) || p.len() >= left {
        left
    } else {
        p.len() as int
    }
}

/// Whether the pattern matches the text.
pub open spec fn matches_spec(
    t: Seq<u8>,
    p: Seq<u8>,
    anchor_start: bool,
    anchor_end: bool,
) -> bool {
    if anchor_start {
        match_from(t, p, anchor_end, 0, 0)
    } else if anchor_end {
        t.len() >= p.len() && exists|s: int|
            0 <= s <= t.len() && #[trigger] match_from(t, p, anchor_end, s, 0) && s + consumed(
                t,
                p,
                s,
            ) == t.len()
    } else {
        exists|s: int| 0 <= s <= t.len() && #[trigger] match_from(t, p, anchor_end, s, 0)
    }
}

fn find_class_end(p: &Vec<u8>, from: usize) -> (r: Option<usize>)
    requires
        from <= p.len(),
    ensures
        match r {
            Some(e) => class_end(p@, from as int) == Some(e as int) && from <= e < p.len(),
            None => class_end(p@, from as int) is None,
        },
{
    let mut i: usize = from;
    while i < p.len()
        invariant
            from <= i <= p.len(),
            class_end(p@, i as int) == class_end(p@, from as int),
        decreases p.len() - i,
    {
        if p[i] == 0x5d {
            return Some(i);
        }
        i += 1;
    }
    None
}

fn match_char_class(p: &Vec<u8>, pp: usize, ch: u8) -> (r: Option<(bool, usize)>)
    requires
        pp < p.len(),
    ensures
        match r {
            Some(c) => class_at(p@, pp as int, ch) == (ClassMatch {
                found: true,
                hit: c.0,
                len: c.1 as int,
            }) && c.1 >= 3 && pp + c.1 <= p.len(),
            None => !class_at(p@, pp as int, ch).found,
        },
{
    let end = match find_class_end(p, pp) {
        Some(e) => e,
        None => {
            return None;
        },
    };
    if end - pp < 2 {
        return None;
    }
    let negate = p[pp + 1] == 0x5e;
    let start: usize = if negate {
        pp + 2
    } else {
        pp + 1
    };
    let mut matched = false;
    let mut i: usize = start;
    while i < end
        invariant_except_break
            !matched,
            class_hit(p@, ch, i as int, end as int) == class_hit(p@, ch, start as int, end as int),
        invariant
            start <= i,
            end < p.len(),
        ensures
            matched == class_hit(p@, ch, start as int, end as int),
        decreases end - i,
    {
        if end - i > 2 && p[i + 1] == 0x2d {
            if ch >= p[i] && ch <= p[i + 2] {
                matched = true;
                break ;
            }
            i += 3;
        } else {
            if ch == p[i] {
                matched = true;
                break ;
            }
            i += 1;
        }
    }
    Some((matched != negate, end - pp + 1))
}

fn rest_all_stars(p: &Vec<u8>, pp: usize) -> (r: bool)
    requires
        pp <= p.len(),
    ensures
        r == all_stars(p@, pp as int),
{
    let mut k: usize = pp;
    while k < p.len()
        invariant
            pp <= k <= p.len(),
            forall|j: int| pp <= j < k ==> #[trigger] p@[j] == 0x2a,
        decreases p.len() - k,
    {
        if p[k] != 0x2a {
            return false;
        }
        k += 1;
    }
    true
}

#[verifier::loop_isolation(false)]
fn match_recursive(t: &Vec<u8>, p: &Vec<u8>, anchor_end: bool, tp: usize, pp: usize) -> (r: bool)
    ensures
        r == match_from(t@, p@, anchor_end, tp as int, pp as int),
    decreases p.len() - pp, t.len() - tp,
{
    if pp >= p.len() {
        return !anchor_end || tp >= t.len();
    }
    if tp >= t.len() {
        return rest_all_stars(p, pp);
    }
    let pat_char = p[pp];
    if pat_char == 0x2a {
        let mut k: usize = tp;
        while k < t.len()
            invariant
                tp <= k <= t.len(),
                pp < p.len(),
                p@[pp as int] == 0x2a,
                match_from(t@, p@, anchor_end, k as int, pp as int) == match_from(
                    t@,
                    p@,
                    anchor_end,
                    tp as int,
                    pp as int,
                ),
            decreases t.len() - k,
        {
            if match_recursive(t, p, anchor_end, k, pp + 1) {
                return true;
            }
            k += 1;
        }
        let r = match_recursive(t, p, anchor_end, k, pp + 1);
        proof {
            assert(match_from(t@, p@, anchor_end, k as int, pp as int) == all_stars(p@, pp as int));
            if pp + 1 < p.len() {
                assert(match_from(t@, p@, anchor_end, k as int, pp + 1) == all_stars(p@, pp + 1));
                if all_stars(p@, pp + 1) {
                    assert forall|j: int| pp <= j < p@.len() implies #[trigger] p@[j] == 0x2a by {
                        if j > pp {
                            assert(p@[j] == 0x2a);
                        }
                    }
                }
            }
        }
        r
    } else if pat_char == 0x3f {
        match_recursive(t, p, anchor_end, tp + 1, pp + 1)
    } else if pat_char == 0x5b {
        match match_char_class(p, pp, t[tp]) {
            Some(c) => {
                if c.0 {
                    match_recursive(t, p, anchor_end, tp + 1, pp + c.1)
                } else {
                    false
                }
            },
            None => false,
        }
    } else if pat_char == 0x5c {
        if p.len() - pp > 1 {
            if t[tp] == p[pp + 1] {
                match_recursive(t, p, anchor_end, tp + 1, pp + 2)
            } else {
                false
            }
        } else {
            false
        }
    } else {
        if t[tp] == pat_char {
            match_recursive(t, p, anchor_end, tp + 1, pp + 1)
        } else {
            false
        }
    }
}

fn consumed_length(t: &Vec<u8>, p: &Vec<u8>, start: usize) -> (r: usize)
    requires
        start <= t.len(),
    ensures
        r == consumed(t@, p@, start as int),
{
    let left = t.len() - start;
    let mut used: usize = 0;
    let mut pat_pos: usize = 0;
    while pat_pos < p.len() && used < left
        invariant
            pat_pos <= p.len(),
            used <= left,
            left == t.len() - start,
            used == pat_pos,
            !star_before(p@, pat_pos as int),
        decreases p.len() - pat_pos,
    {
        if p[pat_pos] == 0x2a {
            assert(star_before(p@, left as int));
            return left;
        }
        used += 1;
        pat_pos += 1;
        assert forall|k: int| 0 <= k < pat_pos && k < p@.len() implies #[trigger] p@[k] != 0x2a by {
            if k < pat_pos - 1 {
                assert(!star_before(p@, pat_pos - 1));
            }
        }
    }
    proof {
        if used < left {
            assert(pat_pos == p.len());
            if star_before(p@, left as int) {
                let k = choose|k: int| 0 <= k < left && k < p@.len() && #[trigger] p@[k] == 0x2a;
                assert(star_before(p@, pat_pos as int));
            }
        }
    }
    used
}

/// Whether the pattern matches the bytes `t`.
#[verifier::loop_isolation(false)]
pub fn matches_bytes(pat: &Pattern, t: &Vec<u8>) -> (r: bool)
    ensures
        r == matches_spec(t@, pat.pattern@, pat.anchor_start, pat.anchor_end),
{
    let p = &pat.pattern;
    if pat.anchor_start {
        match_recursive(t, p, pat.anchor_end, 0, 0)
    } else if pat.anchor_end {
        if t.len() < p.len() {
            return false;
        }
        let mut s: usize = 0;
        while s <= t.len()
            invariant
                s <= t.len() + 1,
                forall|j: int|
                    0 <= j < s ==> !(#[trigger] match_from(t@, p@, pat.anchor_end, j, 0) && j
                        + consumed(t@, p@, j) == t.len()),
            decreases t.len() + 1 - s,
        {
            if match_recursive(t, p, pat.anchor_end, s, 0) {
                let used = consumed_length(t, p, s);
                if used == t.len() - s {
                    assert(match_from(t@, p@, pat.anchor_end, s as int, 0) && s + consumed(
                        t@,
                        p@,
                        s as int,
                    ) == t.len());
                    return true;
                }
            }
            if s == t.len() {
                return false;
            }
            s += 1;
        }
        false
    } else {
        let mut s: usize = 0;
        while s <= t.len()
            invariant
                s <= t.len() + 1,
                forall|j: int| 0 <= j < s ==> !#[trigger] match_from(t@, p@, pat.anchor_end, j, 0),
            decreases t.len() + 1 - s,
        {
            if match_recursive(t, p, pat.anchor_end, s, 0) {
                assert(match_from(t@, p@, pat.anchor_end, s as int, 0));
                return true;
            }
            if s == t.len() {
                return false;
            }
            s += 1;
        }
        false
    }
}

impl Pattern {
    /// The pattern that `pattern` denotes. A `^` at its start anchors it at
    /// the start of the text, a `$` at its end at the end; all leading `^`
    /// and trailing `$` are taken off.
    pub fn new(pattern: &str) -> (r: Pattern)
        ensures
            r.pattern@ == pattern_body(pattern.spec_bytes()),
            r.anchor_start == (pattern.spec_bytes().len() > 0 && pattern.spec_bytes()[0] == 0x5e),
            r.anchor_end == (pattern.spec_bytes().len() > 0 && pattern.spec_bytes().last()
                == 0x24),
    {
        let b = pattern.as_bytes_vec();
        let anchor_start = b.len() > 0 && b[0] == 0x5e;
        let anchor_end = b.len() > 0 && b[b.len() - 1] == 0x24;
        let mut lo: usize = 0;
        while lo < b.len() && b[lo] == 0x5e
            invariant
                lo <= b.len(),
                byte_run_end(b@, 0x5e, lo as int) == byte_run_end(b@, 0x5e, 0),
            decreases b.len() - lo,
        {
            lo += 1;
        }
        let mut hi: usize = b.len();
        while hi > lo && b[hi - 1] == 0x24
            invariant
                lo <= hi <= b.len(),
                byte_run_start(b@, 0x24, lo as int, hi as int) == byte_run_start(
                    b@,
                    0x24,
                    lo as int,
                    b.len() as int,
                ),
            decreases hi,
        {
            hi -= 1;
        }
        let mut body: Vec<u8> = Vec::new();
        let mut i: usize = lo;
        while i < hi
            invariant
                lo <= i <= hi <= b.len(),
                body@ == b@.subrange(lo as int, i as int),
            decreases hi - i,
        {
            body.push(b[i]);
            i += 1;
        }
        Pattern { pattern: body, anchor_start, anchor_end }
    }

    /// Whether the pattern matches `text`: from its start where the pattern
    /// is anchored there, else from any position.
    pub fn matches(&self, text: &str) -> (r: bool)
        ensures
            r == matches_spec(text.spec_bytes(), self.pattern@, self.anchor_start, self.anchor_end),
    {
        let t = text.as_bytes_vec();
        matches_bytes(self, &t)
    }
}

/// Whether `pattern` matches `text`.
pub fn matches(text: &str, pattern: &str) -> (r: bool)
    ensures
        r == matches_spec(
            text.spec_bytes(),
            pattern_body(pattern.spec_bytes()),
            pattern.spec_bytes().len() > 0 && pattern.spec_bytes()[0] == 0x5e,
            pattern.spec_bytes().len() > 0 && pattern.spec_bytes().last() == 0x24,
        ),
{
    Pattern::new(pattern).matches(text)
}

/// The positions from `i` on at which a character of the text begins and
/// the pattern matches the rest of the text, in ascending order.
pub open spec fn find_from(
    t: Seq<u8>,
    p: Seq<u8>,
    anchor_start: bool,
    anchor_end: bool,
    i: int,
) -> Seq<usize>
    decreases t.len() - i,
{
    if 0 <= i < t.len() {
        if vstd::utf8::is_char_boundary(t, i) && matches_spec(
            t.subrange(i, t.len() as int),
            p,
            anchor_start,
            anchor_end,
        ) {
            seq![i as usize] + find_from(t, p, anchor_start, anchor_end, i + 1)
        } else {
            find_from(t, p, anchor_start, anchor_end, i + 1)
        }
    } else {
        Seq::empty()
    }
}

/// The byte positions in `text` at which a character begins and `pattern`
/// matches the rest of the text.
pub fn find_all(text: &str, pattern: &str) -> (r: Vec<usize>)
    ensures
        r@ == find_from(
            text.spec_bytes(),
            pattern_body(pattern.spec_bytes()),
            pattern.spec_bytes().len() > 0 && pattern.spec_bytes()[0] == 0x5e,
            pattern.spec_bytes().len() > 0 && pattern.spec_bytes().last() == 0x24,
            0,
        ),
{
    let pat = Pattern::new(pattern);
    let t = text.as_bytes_vec();
    let mut found: Vec<usize> = Vec::new();
    let mut i: usize = 0;
    while i < t.len()
        invariant
            i <= t.len(),
            t@ == text.spec_bytes(),
            found@ + find_from(t@, pat.pattern@, pat.anchor_start, pat.anchor_end, i as int)
                == find_from(t@, pat.pattern@, pat.anchor_start, pat.anchor_end, 0),
        decreases t.len() - i,
    {
        let ghost before = found@;
        if text.is_char_boundary(i) {
            let mut rest: Vec<u8> = Vec::new();
            let mut j: usize = i;
            while j < t.len()
                invariant
                    i <= j <= t.len(),
                    rest@ == t@.subrange(i as int, j as int),
                decreases t.len() - j,
            {
                rest.push(t[j]);
                j += 1;
            }
            if matches_bytes(&pat, &rest) {
                found.push(i);
                assert(before + (seq![i] + find_from(
                    t@,
                    pat.pattern@,
                    pat.anchor_start,
                    pat.anchor_end,
                    i + 1,
                )) =~= found@ + find_from(
                    t@,
                    pat.pattern@,
                    pat.anchor_start,
                    pat.anchor_end,
                    i + 1,
                ));
            }
        }
        i += 1;
    }
    assert(found@ + Seq::<usize>::empty() =~= found@);
    found
}

/// `s` from `i` on with every occurrence of the text `pat`, which is not
/// empty, replaced by `rep`; occurrences are found from left to right and do
/// not overlap.
pub open spec fn replace_from(s: Seq<char>, pat: Seq<char>, rep: Seq<char>, i: int) -> Seq<char>
    decreases s.len() - i,
{
    if 0 <= i < s.len() && pat.len() > 0 {
        if text_at(s, i, pat) {
            rep + replace_from(s, pat, rep, i + pat.len())
        } else {
            seq![s[i]] + replace_from(s, pat, rep, i + 1)
        }
    } else {
        Seq::empty()
    }
}

/// `rep` put after each character of `s` from `i` on.
pub open spec fn interleave_from(s: Seq<char>, rep: Seq<char>, i: int) -> Seq<char>
    decreases s.len() - i,
{
    if 0 <= i < s.len() {
        seq![s[i]] + rep + interleave_from(s, rep, i + 1)
    } else {
        Seq::empty()
    }
}

/// `s` with every occurrence of `pat` replaced by `rep`. An empty `pat`
/// occurs before each character and at the end.
pub open spec fn replace_spec(s: Seq<char>, pat: Seq<char>, rep: Seq<char>) -> Seq<char> {
    if pat.len() == 0 {
        rep + interleave_from(s, rep, 0)
    } else {
        replace_from(s, pat, rep, 0)
    }
}

/// `text` with every occurrence of the literal text `pattern` replaced by
/// `replacement`.
pub fn replace_all(text: &str, pattern: &str, replacement: &str) -> (r: String)
    ensures
        r@ == replace_spec(text@, pattern@, replacement@),
{
    let s = chars_of(text);
    let pat = chars_of(pattern);
    let rep = chars_of(replacement);
    let mut out: Vec<char> = Vec::new();
    if pat.len() == 0 {
        push_range(&mut out, &rep, 0, rep.len());
        assert(rep@.subrange(0, rep.len() as int) =~= rep@);
        let mut i: usize = 0;
        while i < s.len()
            invariant
                i <= s.len(),
                out@ + interleave_from(s@, rep@, i as int) == rep@ + interleave_from(s@, rep@, 0),
            decreases s.len() - i,
        {
            let ghost before = out@;
            out.push(s[i]);
            push_range(&mut out, &rep, 0, rep.len());
            assert(rep@.subrange(0, rep.len() as int) =~= rep@);
            assert(out@ + interleave_from(s@, rep@, i + 1) =~= before + (seq![s@[i as int]] + rep@
                + interleave_from(s@, rep@, i + 1)));
            i += 1;
        }
        assert(out@ + Seq::<char>::empty() =~= out@);
    } else {
        let mut i: usize = 0;
        while i < s.len()
            invariant
                i <= s.len(),
                pat.len() > 0,
                out@ + replace_from(s@, pat@, rep@, i as int) == replace_from(s@, pat@, rep@, 0),
            decreases s.len() - i,
        {
            let ghost before = out@;
            if text_at_pos(&s, i, &pat) {
                push_range(&mut out, &rep, 0, rep.len());
                assert(rep@.subrange(0, rep.len() as int) =~= rep@);
                assert(out@ + replace_from(s@, pat@, rep@, i + pat.len()) =~= before + (rep@
                    + replace_from(s@, pat@, rep@, i + pat.len())));
                i += pat.len();
            } else {
                out.push(s[i]);
                assert(out@ + replace_from(s@, pat@, rep@, i + 1) =~= before + (seq![s@[i as int]]
                    + replace_from(s@, pat@, rep@, i + 1)));
                i += 1;
            }
        }
        assert(out@ + Seq::<char>::empty() =~= out@);
    }
    string_of(&out)
}

} // verus!
