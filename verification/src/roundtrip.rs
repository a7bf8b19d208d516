//! The canonical text of a version reads back as that version.

use crate::pep440::{
    dev_at, dev_of, dev_text, epoch_of, epoch_start, epoch_text, format_spec, has_epoch,
    is_local_char, is_sep, is_version_text, local_of, local_ok, local_text, no_segment,
    number_at, parse_spec, post_at, post_dash, post_of, post_text, post_word, pre_at, pre_of,
    pre_text, pre_word, release_end, release_fits, release_more, release_start, release_text,
    release_values, sep_end, valid_local, version_of, version_order, Segment, VersionView,
    lemma_version_order_antisymmetric,
};
use crate::text::{
    decimal, digits_end, fold, is_digit, is_space, lemma_decimal, lemma_digits_end_is, space_end,
    space_start, trimmed, word_at,
};
use vstd::prelude::*;

verus! {

/// Whether `t` is one of the tags `a`, `b` and `rc`.
pub open spec fn is_tag(t: Seq<char>) -> bool {
    t == seq!['a'] || t == seq!['b'] || t == seq!['r', 'c']
}

/// Whether a version is as parsing yields it: it has a release, its
/// pre-release tag is normalised, and its local segment is one.
pub open spec fn well_formed(v: VersionView) -> bool {
    &&& v.release.len() >= 1
    &&& (v.pre matches Some(p) ==> is_tag(p.0))
    &&& (v.local matches Some(l) ==> valid_local(l))
}

/// Whether `t` is what may follow a development release: nothing, or a
/// local segment.
pub open spec fn plain_tail(t: Seq<char>) -> bool {
    t.len() == 0 || t[0] == '+'
}

/// Whether `t` begins with `.dev` and a digit.
pub open spec fn dev_head(t: Seq<char>) -> bool {
    t.len() >= 5 && t[0] == '.' && t[1] == 'd' && t[2] == 'e' && t[3] == 'v' && is_digit(t[4])
}

/// Whether `t` begins with `.post` and a digit.
pub open spec fn post_head(t: Seq<char>) -> bool {
    t.len() >= 6 && t[0] == '.' && t[1] == 'p' && t[2] == 'o' && t[3] == 's' && t[4] == 't'
        && is_digit(t[5])
}

/// Whether `t` begins with a tag and a digit.
pub open spec fn pre_head(t: Seq<char>) -> bool {
    ||| (t.len() >= 2 && (t[0] == 'a' || t[0] == 'b') && is_digit(t[1]))
    ||| (t.len() >= 3 && t[0] == 'r' && t[1] == 'c' && is_digit(t[2]))
}

/// What may follow a post-release.
pub open spec fn dev_tail(t: Seq<char>) -> bool {
    plain_tail(t) || dev_head(t)
}

/// What may follow a pre-release.
pub open spec fn post_tail(t: Seq<char>) -> bool {
    dev_tail(t) || post_head(t)
}

/// What may follow a release.
pub open spec fn pre_tail(t: Seq<char>) -> bool {
    post_tail(t) || pre_head(t)
}

/// The text of a version from its development release on.
pub open spec fn from_dev(v: VersionView) -> Seq<char> {
    dev_text(v.dev) + local_text(v.local)
}

/// The text of a version from its post-release on.
pub open spec fn from_post(v: VersionView) -> Seq<char> {
    post_text(v.post) + from_dev(v)
}

/// The text of a version from its pre-release on.
pub open spec fn from_pre(v: VersionView) -> Seq<char> {
    pre_text(v.pre) + from_post(v)
}

/// The text of a version from its release on.
pub open spec fn from_release(v: VersionView) -> Seq<char> {
    release_text(v.release) + from_pre(v)
}

/// The first digit of a decimal notation is a digit.
proof fn lemma_decimal_head(n: nat)
    ensures
        decimal(n).len() >= 1,
        is_digit(decimal(n)[0]),
        is_digit(decimal(n).last()),
{
    lemma_decimal(n);
}

/// What follows each segment in the text of a version is what may follow
/// it.
proof fn lemma_tails(v: VersionView)
    requires
        well_formed(v),
    ensures
        plain_tail(local_text(v.local)),
        dev_tail(from_dev(v)),
        post_tail(from_post(v)),
        pre_tail(from_pre(v)),
{
    let l = local_text(v.local);
    if v.local is Some {
        assert(l[0] == '+');
    }
    let d = from_dev(v);
    if v.dev is Some {
        lemma_decimal_head(v.dev->0 as nat);
        let head = seq!['.', 'd', 'e', 'v'] + decimal(v.dev->0 as nat);
        assert(d == head + l);
        assert(d[0] == '.' && d[1] == 'd' && d[2] == 'e' && d[3] == 'v');
        assert(d[4] == decimal(v.dev->0 as nat)[0]);
    } else {
        assert(d =~= l);
    }
    let p = from_post(v);
    if v.post is Some {
        lemma_decimal_head(v.post->0 as nat);
        let head = seq!['.', 'p', 'o', 's', 't'] + decimal(v.post->0 as nat);
        assert(p == head + d);
        assert(p[0] == '.' && p[1] == 'p' && p[2] == 'o' && p[3] == 's' && p[4] == 't');
        assert(p[5] == decimal(v.post->0 as nat)[0]);
    } else {
        assert(p =~= d);
    }
    let q = from_pre(v);
    match v.pre {
        Some(x) => {
            lemma_decimal_head(x.1 as nat);
            let head = x.0 + decimal(x.1 as nat);
            assert(q == head + p);
            if x.0 == seq!['r', 'c'] {
                assert(q[0] == 'r' && q[1] == 'c');
                assert(q[2] == decimal(x.1 as nat)[0]);
            } else {
                assert(q[0] == x.0[0]);
                assert(q[1] == decimal(x.1 as nat)[0]);
            }
        },
        None => {
            assert(q =~= p);
        },
    }
}

/// The digits of a number, followed by what is no digit, read as the
/// number and end where they end.
proof fn lemma_number(s: Seq<char>, i: int, n: nat, rest: Seq<char>)
    requires
        0 <= i <= s.len(),
        s.subrange(i, s.len() as int) == decimal(n) + rest,
        rest.len() == 0 || !is_digit(rest[0]),
    ensures
        digits_end(s, i) == i + decimal(n).len(),
        i < digits_end(s, i) <= s.len(),
        number_at(s, i) == n,
        s.subrange(digits_end(s, i), s.len() as int) == rest,
{
    lemma_decimal(n);
    let t = s.subrange(i, s.len() as int);
    let d = decimal(n);
    let e = i + d.len();
    assert(t.len() == d.len() + rest.len());
    assert forall|j: int| i <= j < e implies is_digit(#[trigger] s[j]) by {
        assert(s[j] == t[j - i]);
        assert(t[j - i] == d[j - i]);
    }
    if e < s.len() {
        assert(s[e] == t[e - i]);
        assert(t[e - i] == rest[0]);
    }
    lemma_digits_end_is(s, i, e);
    assert(s.subrange(i, e) =~= d);
    assert forall|k: int| 0 <= k < rest.len() implies s.subrange(e, s.len() as int)[k] == rest[k] by {
        assert(s[e + k] == t[e + k - i]);
        assert(t[e + k - i] == rest[k]);
    }
    assert(s.subrange(e, s.len() as int) =~= rest);
}

/// A text that neither begins nor ends with whitespace is trimmed already.
proof fn lemma_trimmed(s: Seq<char>)
    requires
        s.len() > 0,
        !is_space(s[0]),
        !is_space(s.last()),
    ensures
        trimmed(s) == s,
{
    assert(space_end(s, 0) == 0);
    assert(space_start(s, 0, s.len() as int) == s.len());
    assert(s.subrange(0, s.len() as int) =~= s);
}

/// The characters of `s` from `i` on are those of its rest from there.
proof fn lemma_rest(s: Seq<char>, i: int, t: Seq<char>)
    requires
        0 <= i <= s.len(),
        s.subrange(i, s.len() as int) == t,
    ensures
        t.len() == s.len() - i,
        forall|k: int| 0 <= k < t.len() ==> #[trigger] s[i + k] == t[k],
{
    assert forall|k: int| 0 <= k < t.len() implies #[trigger] s[i + k] == t[k] by {
        assert(s.subrange(i, s.len() as int)[k] == s[i + k]);
    }
}

/// The rest of a rest.
proof fn lemma_rest_of_rest(s: Seq<char>, i: int, head: Seq<char>, rest: Seq<char>)
    requires
        0 <= i <= s.len(),
        s.subrange(i, s.len() as int) == head + rest,
    ensures
        i + head.len() <= s.len(),
        s.subrange(i + head.len(), s.len() as int) == rest,
        forall|k: int| 0 <= k < head.len() ==> #[trigger] s[i + k] == head[k],
{
    let t = head + rest;
    lemma_rest(s, i, t);
    assert forall|k: int| 0 <= k < head.len() implies #[trigger] s[i + k] == head[k] by {
        assert(t[k] == head[k]);
    }
    assert forall|k: int| 0 <= k < rest.len() implies s.subrange(
        i + head.len(),
        s.len() as int,
    )[k] == rest[k] by {
        assert(s[i + (head.len() + k)] == t[head.len() + k]);
    }
    assert(s.subrange(i + head.len(), s.len() as int) =~= rest);
}

/// Where nothing or a local segment follows, there is no development
/// release.
proof fn lemma_dev_absent(s: Seq<char>, i: int)
    requires
        0 <= i <= s.len(),
        plain_tail(s.subrange(i, s.len() as int)),
    ensures
        dev_at(s, i) == no_segment(i),
{
    let t = s.subrange(i, s.len() as int);
    lemma_rest(s, i, t);
    if i < s.len() {
        assert(s[i + 0] == t[0]);
        assert(sep_end(s, i) == i);
        if word_at(s, i, seq!['d', 'e', 'v']) {
            assert(fold(s[i + 0]) == seq!['d', 'e', 'v'][0]);
        }
    }
}

/// `.dev` and a number read as a development release.
proof fn lemma_dev_present(s: Seq<char>, i: int, n: nat, rest: Seq<char>)
    requires
        0 <= i <= s.len(),
        s.subrange(i, s.len() as int) == seq!['.', 'd', 'e', 'v'] + decimal(n) + rest,
        plain_tail(rest),
    ensures
        dev_at(s, i) == (Segment {
            present: true,
            tag: Seq::empty(),
            number: n,
            end: i + 4 + decimal(n).len(),
        }),
        i + 4 + decimal(n).len() <= s.len(),
        s.subrange(i + 4 + decimal(n).len(), s.len() as int) == rest,
{
    let head = seq!['.', 'd', 'e', 'v'];
    let w = seq!['d', 'e', 'v'];
    lemma_decimal_head(n);
    assert(head + decimal(n) + rest =~= head + (decimal(n) + rest));
    lemma_rest_of_rest(s, i, head, decimal(n) + rest);
    assert(s[i + 0] == '.' && s[i + 1] == 'd' && s[i + 2] == 'e' && s[i + 3] == 'v');
    assert(sep_end(s, i) == i + 1);
    lemma_rest(s, i + 4, decimal(n) + rest);
    assert(s[i + 4 + 0] == (decimal(n) + rest)[0]);
    assert forall|j: int| 0 <= j < w.len() implies fold(#[trigger] s[i + 1 + j]) == w[j] by {
        if j == 0 {
            assert(s[i + 1 + 0] == 'd');
        } else if j == 1 {
            assert(s[i + 1 + 1] == 'e');
        } else {
            assert(s[i + 1 + 2] == 'v');
        }
    }
    assert(word_at(s, i + 1, w));
    assert(sep_end(s, i + 4) == i + 4);
    lemma_number(s, i + 4, n, rest);
}

/// Where nothing, a local segment or a development release follows, there
/// is no post-release.
proof fn lemma_post_absent(s: Seq<char>, i: int)
    requires
        0 <= i <= s.len(),
        dev_tail(s.subrange(i, s.len() as int)),
    ensures
        post_at(s, i) == no_segment(i),
{
    let t = s.subrange(i, s.len() as int);
    lemma_rest(s, i, t);
    if i < s.len() {
        assert(s[i + 0] == t[0]);
        if dev_head(t) {
            assert(s[i + 1] == t[1]);
            assert(sep_end(s, i) == i + 1);
            let j = i + 1;
            if word_at(s, j, seq!['p', 'o', 's', 't']) {
                assert(fold(s[j + 0]) == seq!['p', 'o', 's', 't'][0]);
            }
            if word_at(s, j, seq!['r', 'e', 'v']) {
                assert(fold(s[j + 0]) == seq!['r', 'e', 'v'][0]);
            }
            if word_at(s, j, seq!['r']) {
                assert(fold(s[j + 0]) == seq!['r'][0]);
            }
        } else {
            assert(sep_end(s, i) == i);
            if word_at(s, i, seq!['p', 'o', 's', 't']) {
                assert(fold(s[i + 0]) == seq!['p', 'o', 's', 't'][0]);
            }
            if word_at(s, i, seq!['r', 'e', 'v']) {
                assert(fold(s[i + 0]) == seq!['r', 'e', 'v'][0]);
            }
            if word_at(s, i, seq!['r']) {
                assert(fold(s[i + 0]) == seq!['r'][0]);
            }
        }
    }
}

/// `.post` and a number read as a post-release.
proof fn lemma_post_present(s: Seq<char>, i: int, n: nat, rest: Seq<char>)
    requires
        0 <= i <= s.len(),
        s.subrange(i, s.len() as int) == seq!['.', 'p', 'o', 's', 't'] + decimal(n) + rest,
        dev_tail(rest),
    ensures
        post_at(s, i) == (Segment {
            present: true,
            tag: Seq::empty(),
            number: n,
            end: i + 5 + decimal(n).len(),
        }),
        i + 5 + decimal(n).len() <= s.len(),
        s.subrange(i + 5 + decimal(n).len(), s.len() as int) == rest,
{
    let head = seq!['.', 'p', 'o', 's', 't'];
    let w = seq!['p', 'o', 's', 't'];
    lemma_decimal_head(n);
    assert(head + decimal(n) + rest =~= head + (decimal(n) + rest));
    lemma_rest_of_rest(s, i, head, decimal(n) + rest);
    assert(s[i + 0] == '.' && s[i + 1] == 'p' && s[i + 2] == 'o' && s[i + 3] == 's' && s[i + 4]
        == 't');
    assert(!post_dash(s, i));
    assert(sep_end(s, i) == i + 1);
    lemma_rest(s, i + 5, decimal(n) + rest);
    assert(s[i + 5 + 0] == (decimal(n) + rest)[0]);
    assert forall|j: int| 0 <= j < w.len() implies fold(#[trigger] s[i + 1 + j]) == w[j] by {
        if j == 0 {
            assert(s[i + 1 + 0] == 'p');
        } else if j == 1 {
            assert(s[i + 1 + 1] == 'o');
        } else if j == 2 {
            assert(s[i + 1 + 2] == 's');
        } else {
            assert(s[i + 1 + 3] == 't');
        }
    }
    assert(word_at(s, i + 1, w));
    assert(post_word(s, i + 1) == Some(4int));
    assert(sep_end(s, i + 5) == i + 5);
    lemma_number(s, i + 5, n, rest);
}

/// No pre-release word stands where the first character is none of `a`,
/// `b`, `c`, `p` and `r`, letter case aside.
proof fn lemma_no_pre_word(s: Seq<char>, j: int)
    requires
        !(0 <= j < s.len()) || (fold(s[j]) != 'a' && fold(s[j]) != 'b' && fold(s[j]) != 'c'
            && fold(s[j]) != 'r' && (fold(s[j]) != 'p' || (j + 1 < s.len() && fold(s[j + 1])
            != 'r'))),
    ensures
        pre_word(s, j) is None,
{
    if 0 <= j < s.len() {
        if word_at(s, j, seq!['a', 'l', 'p', 'h', 'a']) {
            assert(fold(s[j + 0]) == seq!['a', 'l', 'p', 'h', 'a'][0]);
        }
        if word_at(s, j, seq!['a']) {
            assert(fold(s[j + 0]) == seq!['a'][0]);
        }
        if word_at(s, j, seq!['b', 'e', 't', 'a']) {
            assert(fold(s[j + 0]) == seq!['b', 'e', 't', 'a'][0]);
        }
        if word_at(s, j, seq!['b']) {
            assert(fold(s[j + 0]) == seq!['b'][0]);
        }
        if word_at(s, j, seq!['p', 'r', 'e', 'v', 'i', 'e', 'w']) {
            assert(fold(s[j + 0]) == seq!['p', 'r', 'e', 'v', 'i', 'e', 'w'][0]);
            assert(fold(s[j + 1]) == seq!['p', 'r', 'e', 'v', 'i', 'e', 'w'][1]);
        }
        if word_at(s, j, seq!['p', 'r', 'e']) {
            assert(fold(s[j + 0]) == seq!['p', 'r', 'e'][0]);
            assert(fold(s[j + 1]) == seq!['p', 'r', 'e'][1]);
        }
        if word_at(s, j, seq!['r', 'c']) {
            assert(fold(s[j + 0]) == seq!['r', 'c'][0]);
        }
        if word_at(s, j, seq!['c']) {
            assert(fold(s[j + 0]) == seq!['c'][0]);
        }
    }
}

/// Where what follows is no pre-release, there is none.
proof fn lemma_pre_absent(s: Seq<char>, i: int)
    requires
        0 <= i <= s.len(),
        post_tail(s.subrange(i, s.len() as int)),
    ensures
        pre_at(s, i) == no_segment(i),
{
    let t = s.subrange(i, s.len() as int);
    lemma_rest(s, i, t);
    if i < s.len() {
        assert(s[i + 0] == t[0]);
        if dev_head(t) || post_head(t) {
            assert(s[i + 1] == t[1]);
            assert(s[i + 2] == t[2]);
            assert(sep_end(s, i) == i + 1);
            lemma_no_pre_word(s, i + 1);
        } else {
            assert(sep_end(s, i) == i);
            lemma_no_pre_word(s, i);
        }
    } else {
        lemma_no_pre_word(s, sep_end(s, i));
    }
}

/// A tag and a number read as a pre-release.
proof fn lemma_pre_present(s: Seq<char>, i: int, tag: Seq<char>, n: nat, rest: Seq<char>)
    requires
        0 <= i <= s.len(),
        is_tag(tag),
        s.subrange(i, s.len() as int) == tag + decimal(n) + rest,
        post_tail(rest),
    ensures
        pre_at(s, i) == (Segment {
            present: true,
            tag,
            number: n,
            end: i + tag.len() + decimal(n).len(),
        }),
        i + tag.len() + decimal(n).len() <= s.len(),
        s.subrange(i + tag.len() + decimal(n).len(), s.len() as int) == rest,
{
    lemma_decimal_head(n);
    assert(tag + decimal(n) + rest =~= tag + (decimal(n) + rest));
    lemma_rest_of_rest(s, i, tag, decimal(n) + rest);
    let k = i + tag.len();
    lemma_rest(s, k, decimal(n) + rest);
    assert(s[k + 0] == (decimal(n) + rest)[0]);
    assert(is_digit(s[k]));
    assert(s[i + 0] == tag[0]);
    assert(sep_end(s, i) == i);
    assert(sep_end(s, k) == k);
    if word_at(s, i, seq!['a', 'l', 'p', 'h', 'a']) {
        assert(fold(s[i + 0]) == seq!['a', 'l', 'p', 'h', 'a'][0]);
        assert(fold(s[i + 1]) == seq!['a', 'l', 'p', 'h', 'a'][1]);
    }
    if word_at(s, i, seq!['b', 'e', 't', 'a']) {
        assert(fold(s[i + 0]) == seq!['b', 'e', 't', 'a'][0]);
        assert(fold(s[i + 1]) == seq!['b', 'e', 't', 'a'][1]);
    }
    if word_at(s, i, seq!['p', 'r', 'e', 'v', 'i', 'e', 'w']) {
        assert(fold(s[i + 0]) == seq!['p', 'r', 'e', 'v', 'i', 'e', 'w'][0]);
    }
    if word_at(s, i, seq!['p', 'r', 'e']) {
        assert(fold(s[i + 0]) == seq!['p', 'r', 'e'][0]);
    }
    if word_at(s, i, seq!['c']) {
        assert(fold(s[i + 0]) == seq!['c'][0]);
    }
    if tag == seq!['a'] {
        assert forall|j: int| 0 <= j < 1 implies fold(#[trigger] s[i + j]) == seq!['a'][j] by {
            assert(s[i + 0] == 'a');
        }
        assert(word_at(s, i, seq!['a']));
    } else {
        if word_at(s, i, seq!['a']) {
            assert(fold(s[i + 0]) == seq!['a'][0]);
        }
    }
    if tag == seq!['b'] {
        assert forall|j: int| 0 <= j < 1 implies fold(#[trigger] s[i + j]) == seq!['b'][j] by {
            assert(s[i + 0] == 'b');
        }
        assert(word_at(s, i, seq!['b']));
    } else {
        if word_at(s, i, seq!['b']) {
            assert(fold(s[i + 0]) == seq!['b'][0]);
        }
    }
    if tag == seq!['r', 'c'] {
        assert(s[i + 1] == tag[1]);
        assert forall|j: int| 0 <= j < 2 implies fold(#[trigger] s[i + j]) == seq!['r', 'c'][j] by {
            if j == 0 {
                assert(s[i + 0] == 'r');
            } else {
                assert(s[i + 1] == 'c');
            }
        }
        assert(word_at(s, i, seq!['r', 'c']));
    } else {
        if word_at(s, i, seq!['r', 'c']) {
            assert(fold(s[i + 0]) == seq!['r', 'c'][0]);
        }
    }
    assert(pre_word(s, i) == Some((tag, tag.len() as int)));
    lemma_number(s, k, n, rest);
}

/// The text of a release begins with its first number; the others follow,
/// each after a dot.
proof fn lemma_release_text_front(r: Seq<u64>)
    requires
        r.len() >= 1,
    ensures
        release_text(r) == decimal(r[0] as nat) + (if r.len() == 1 {
            Seq::<char>::empty()
        } else {
            seq!['.'] + release_text(r.drop_first())
        }),
    decreases r.len(),
{
    if r.len() == 1 {
        assert(decimal(r[0] as nat) + Seq::<char>::empty() =~= decimal(r[0] as nat));
    } else if r.len() == 2 {
        assert(r.drop_last().len() == 1);
        assert(r.drop_first().len() == 1);
        assert(r.drop_last()[0] == r[0]);
        assert(r.drop_first()[0] == r[1]);
        assert(release_text(r.drop_last()) == decimal(r[0] as nat));
        assert(release_text(r.drop_first()) == decimal(r[1] as nat));
    } else {
        let front = r.drop_last();
        lemma_release_text_front(front);
        let tail = r.drop_first();
        assert(tail.drop_last() =~= front.drop_first());
        assert(tail.last() == r.last());
        assert(front[0] == r[0]);
        assert(release_text(tail) == release_text(tail.drop_last()) + seq!['.'] + decimal(
            r.last() as nat,
        ));
        assert(release_text(r) =~= decimal(r[0] as nat) + (seq!['.'] + release_text(tail)));
    }
}

/// What may follow a release begins with neither a digit nor `!`, and where
/// it begins with a dot, no digit follows the dot.
proof fn lemma_pre_tail(t: Seq<char>)
    requires
        pre_tail(t),
    ensures
        t.len() == 0 || (!is_digit(t[0]) && t[0] != '!'),
        t.len() >= 2 && t[0] == '.' ==> !is_digit(t[1]),
{
}

/// The text of a release reads as its numbers.
proof fn lemma_release(s: Seq<char>, i: int, r: Seq<u64>, rest: Seq<char>)
    requires
        0 <= i <= s.len(),
        r.len() >= 1,
        s.subrange(i, s.len() as int) == release_text(r) + rest,
        pre_tail(rest),
    ensures
        digits_end(s, i) > i,
        digits_end(s, i) == i + decimal(r[0] as nat).len(),
        release_values(s, i) == r,
        release_fits(s, i),
        release_end(s, i) == i + release_text(r).len(),
        release_end(s, i) <= s.len(),
        s.subrange(release_end(s, i), s.len() as int) == rest,
    decreases r.len(),
{
    lemma_release_text_front(r);
    lemma_pre_tail(rest);
    let d0 = decimal(r[0] as nat);
    lemma_decimal_head(r[0] as nat);
    if r.len() == 1 {
        assert(release_text(r) + rest =~= d0 + rest);
        lemma_number(s, i, r[0] as nat, rest);
        let e = digits_end(s, i);
        lemma_rest(s, e, rest);
        if e + 1 < s.len() {
            assert(s[e + 0] == rest[0]);
            assert(s[e + 1] == rest[1]);
        }
        assert(!release_more(s, e));
        assert(release_values(s, i) =~= r);
    } else {
        let tail = r.drop_first();
        lemma_release_text_front(tail);
        lemma_decimal_head(tail[0] as nat);
        let after = seq!['.'] + release_text(tail) + rest;
        assert(release_text(r) + rest =~= d0 + after);
        assert(after[0] == '.');
        lemma_number(s, i, r[0] as nat, after);
        let e = digits_end(s, i);
        assert(seq!['.'] + release_text(tail) + rest =~= seq!['.'] + (release_text(tail) + rest));
        lemma_rest_of_rest(s, e, seq!['.'], release_text(tail) + rest);
        assert(s[e + 0] == '.');
        lemma_rest(s, e + 1, release_text(tail) + rest);
        assert(s[e + 1 + 0] == (release_text(tail) + rest)[0]);
        assert((release_text(tail) + rest)[0] == decimal(tail[0] as nat)[0]);
        assert(release_more(s, e));
        lemma_release(s, e + 1, tail, rest);
        assert(release_values(s, i) =~= r);
    }
}

/// A character of a local segment is no whitespace.
proof fn lemma_local_char(c: char)
    requires
        is_local_char(c),
    ensures
        !is_space(c),
{
}

/// The canonical text of a well-formed version is not empty, begins with a
/// digit and does not end with whitespace.
#[verifier::rlimit(40)]
proof fn lemma_ends(v: VersionView)
    requires
        well_formed(v),
    ensures
        format_spec(v).len() > 0,
        is_digit(format_spec(v)[0]),
        !is_space(format_spec(v).last()),
        format_spec(v) == epoch_text(v.epoch) + from_release(v),
{
    let f = format_spec(v);
    let e = epoch_text(v.epoch);
    let r = release_text(v.release);
    let p = pre_text(v.pre);
    let q = post_text(v.post);
    let d = dev_text(v.dev);
    let l = local_text(v.local);
    assert(f =~= e + from_release(v));
    lemma_release_text_front(v.release);
    lemma_decimal_head(v.release[0] as nat);
    lemma_release_last(v.release);
    if v.epoch > 0 {
        lemma_decimal_head(v.epoch as nat);
        assert(f[0] == decimal(v.epoch as nat)[0]);
    } else {
        assert(f[0] == r[0]);
    }
    let n = f.len();
    match v.local {
        Some(t) => {
            assert(f.last() == t.last());
            lemma_local_char(t.last());
        },
        None => {
            assert(l.len() == 0);
            if v.dev is Some {
                lemma_decimal_head(v.dev->0 as nat);
                assert(f.last() == decimal(v.dev->0 as nat).last());
            } else if v.post is Some {
                lemma_decimal_head(v.post->0 as nat);
                assert(f.last() == decimal(v.post->0 as nat).last());
            } else {
                match v.pre {
                    Some(x) => {
                        lemma_decimal_head(x.1 as nat);
                        assert(f.last() == decimal(x.1 as nat).last());
                    },
                    None => {
                        assert(f.last() == r.last());
                    },
                }
            }
        },
    }
}

/// The text of a release ends with a digit.
proof fn lemma_release_last(r: Seq<u64>)
    requires
        r.len() >= 1,
    ensures
        release_text(r).len() >= 1,
        is_digit(release_text(r).last()),
{
    lemma_decimal_head(r.last() as nat);
    if r.len() == 1 {
        assert(r[0] == r.last());
    }
}

/// In the canonical text the epoch reads as the epoch, and the release
/// begins after it.
proof fn lemma_stage_epoch(v: VersionView)
    requires
        well_formed(v),
    ensures
        epoch_of(format_spec(v)) == v.epoch,
        0 <= release_start(format_spec(v)) <= format_spec(v).len(),
        format_spec(v).subrange(release_start(format_spec(v)), format_spec(v).len() as int)
            == from_release(v),
{
    let f = format_spec(v);
    lemma_ends(v);
    lemma_tails(v);
    let n = f.len() as int;
    if word_at(f, 0, seq!['v']) {
        assert(fold(f[0int + 0]) == seq!['v'][0]);
    }
    assert(epoch_start(f) == 0);
    lemma_release_text_front(v.release);
    let r = v.release;
    if v.epoch > 0 {
        let after = seq!['!'] + from_release(v);
        assert(f =~= decimal(v.epoch as nat) + after);
        assert(f.subrange(0, n) =~= f);
        assert(after[0] == '!');
        lemma_number(f, 0, v.epoch as nat, after);
        let e = digits_end(f, 0);
        lemma_rest_of_rest(f, e, seq!['!'], from_release(v));
        assert(f[e + 0] == '!');
        assert(has_epoch(f));
    } else {
        assert(f =~= from_release(v));
        assert(f.subrange(0, n) =~= f);
        let d0 = decimal(r[0] as nat);
        let after = (if r.len() == 1 {
            Seq::<char>::empty()
        } else {
            seq!['.'] + release_text(r.drop_first())
        }) + from_pre(v);
        assert(f =~= d0 + after);
        lemma_pre_tail(from_pre(v));
        if r.len() > 1 {
            assert(after[0] == '.');
        } else {
            assert(after =~= from_pre(v));
        }
        lemma_number(f, 0, r[0] as nat, after);
        let e = digits_end(f, 0);
        lemma_rest(f, e, after);
        if e < n {
            assert(f[e + 0] == after[0]);
        }
        assert(!has_epoch(f));
    }
}

/// In the canonical text the release reads as the release, and the
/// pre-release begins after it.
proof fn lemma_stage_release(v: VersionView)
    requires
        well_formed(v),
    ensures
        digits_end(format_spec(v), release_start(format_spec(v))) > release_start(format_spec(v)),
        release_values(format_spec(v), release_start(format_spec(v))) == v.release,
        release_fits(format_spec(v), release_start(format_spec(v))),
        0 <= release_end(format_spec(v), release_start(format_spec(v))) <= format_spec(v).len(),
        format_spec(v).subrange(
            release_end(format_spec(v), release_start(format_spec(v))),
            format_spec(v).len() as int,
        ) == from_pre(v),
{
    lemma_stage_epoch(v);
    lemma_tails(v);
    lemma_release(format_spec(v), release_start(format_spec(v)), v.release, from_pre(v));
}

/// Whether a segment of the grammar is the optional number `n`.
pub open spec fn reads_as(g: Segment, n: Option<u64>) -> bool {
    g.present == (n is Some) && (n matches Some(x) ==> g.number == x)
}

/// In the canonical text the pre-release reads as the pre-release.
proof fn lemma_stage_pre(v: VersionView)
    requires
        well_formed(v),
    ensures
        pre_of(format_spec(v)).present == (v.pre is Some),
        v.pre matches Some(x) ==> pre_of(format_spec(v)).tag == x.0 && pre_of(
            format_spec(v),
        ).number == x.1,
        0 <= pre_of(format_spec(v)).end <= format_spec(v).len(),
        format_spec(v).subrange(pre_of(format_spec(v)).end, format_spec(v).len() as int)
            == from_post(v),
{
    let f = format_spec(v);
    lemma_stage_release(v);
    lemma_tails(v);
    let i2 = release_end(f, release_start(f));
    match v.pre {
        Some(x) => {
            assert(from_pre(v) =~= x.0 + decimal(x.1 as nat) + from_post(v));
            lemma_pre_present(f, i2, x.0, x.1 as nat, from_post(v));
        },
        None => {
            assert(from_pre(v) =~= from_post(v));
            lemma_pre_absent(f, i2);
        },
    }
}

/// In the canonical text the post-release reads as the post-release.
proof fn lemma_stage_post(v: VersionView)
    requires
        well_formed(v),
    ensures
        reads_as(post_of(format_spec(v)), v.post),
        0 <= post_of(format_spec(v)).end <= format_spec(v).len(),
        format_spec(v).subrange(post_of(format_spec(v)).end, format_spec(v).len() as int)
            == from_dev(v),
{
    let f = format_spec(v);
    lemma_stage_pre(v);
    lemma_tails(v);
    let i3 = pre_of(f).end;
    match v.post {
        Some(x) => {
            assert(from_post(v) =~= seq!['.', 'p', 'o', 's', 't'] + decimal(x as nat) + from_dev(
                v,
            ));
            lemma_post_present(f, i3, x as nat, from_dev(v));
        },
        None => {
            assert(from_post(v) =~= from_dev(v));
            lemma_post_absent(f, i3);
        },
    }
}

/// In the canonical text the development release reads as the development
/// release, and the local segment as the local segment.
#[verifier::rlimit(40)]
proof fn lemma_stage_dev(v: VersionView)
    requires
        well_formed(v),
    ensures
        reads_as(dev_of(format_spec(v)), v.dev),
        local_ok(format_spec(v)),
        local_of(format_spec(v)) == v.local,
{
    let f = format_spec(v);
    let n = f.len() as int;
    lemma_stage_post(v);
    lemma_tails(v);
    let i4 = post_of(f).end;
    match v.dev {
        Some(x) => {
            assert(from_dev(v) =~= seq!['.', 'd', 'e', 'v'] + decimal(x as nat) + local_text(
                v.local,
            ));
            lemma_dev_present(f, i4, x as nat, local_text(v.local));
        },
        None => {
            assert(from_dev(v) =~= local_text(v.local));
            lemma_dev_absent(f, i4);
        },
    }
    let i5 = dev_of(f).end;
    assert(f.subrange(i5, n) == local_text(v.local));
    match v.local {
        Some(t) => {
            lemma_rest_of_rest(f, i5, seq!['+'], t);
            assert(f[i5 + 0] == '+');
        },
        None => {
            assert(i5 == n);
        },
    }
}

/// The canonical text of a well-formed version is a version text and
/// denotes that version.
pub proof fn lemma_format_reads_back(v: VersionView)
    requires
        well_formed(v),
    ensures
        is_version_text(format_spec(v)),
        version_of(format_spec(v)) == v,
{
    lemma_stage_epoch(v);
    lemma_stage_release(v);
    lemma_stage_pre(v);
    lemma_stage_post(v);
    lemma_stage_dev(v);
    let w = version_of(format_spec(v));
    assert(w.epoch == v.epoch);
    assert(w.release == v.release);
    assert(w.pre == v.pre);
    assert(w.post == v.post);
    assert(w.dev == v.dev);
    assert(w.local == v.local);
}

/// Round trip: the canonical text of a well-formed version parses to that
/// very version, which is therefore also its equal in the order.
pub proof fn lemma_round_trip(v: VersionView)
    requires
        well_formed(v),
    ensures
        parse_spec(format_spec(v)) == Some(v),
        version_order(parse_spec(format_spec(v))->0, v) == 0,
{
    lemma_ends(v);
    lemma_trimmed(format_spec(v));
    lemma_format_reads_back(v);
    lemma_version_order_antisymmetric(v, v);
}

/// A version that parsing yields is well-formed.
pub proof fn lemma_parse_well_formed(text: Seq<char>)
    ensures
        parse_spec(text) matches Some(v) ==> well_formed(v),
{
    let s = trimmed(text);
    if is_version_text(s) {
        let v = version_of(s);
        let i = release_start(s);
        assert(release_values(s, i).len() >= 1);
        let j = sep_end(s, release_end(s, i));
        assert(pre_of(s).present ==> is_tag(pre_of(s).tag)) by {
            match pre_word(s, j) {
                Some(w) => {
                    assert(is_tag(w.0));
                },
                None => {},
            }
        }
    }
}

/// Round trip: for every text that is a version, the canonical text of the
/// version that it denotes parses again, to that very version, so that the
/// two are equal in the order.
pub proof fn lemma_parse_round_trip(text: Seq<char>)
    ensures
        parse_spec(text) matches Some(v) ==> parse_spec(format_spec(v)) == Some(v)
            && version_order(parse_spec(format_spec(v))->0, v) == 0,
{
    lemma_parse_well_formed(text);
    if parse_spec(text) is Some {
        lemma_round_trip(parse_spec(text)->0);
    }
}

} // verus!
