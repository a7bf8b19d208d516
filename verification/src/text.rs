//! Character-level building blocks shared by the parsers and formatters:
//! conversions between strings and character vectors, character classes,
//! whitespace trimming, decimal numbers and lexicographic order.

use vstd::prelude::*;

verus! {

// ---------------------------------------------------------------------------
// Character classes
// ---------------------------------------------------------------------------

/// An ASCII decimal digit.
pub open spec fn is_digit(c: char) -> bool {
    '0' <= c && c <= '9'
}

/// The number a decimal digit stands for.
pub open spec fn digit_value(c: char) -> nat {
    (c as u32 - '0' as u32) as nat
}

/// An ASCII lower-case letter.
pub open spec fn is_lower(c: char) -> bool {
    'a' <= c && c <= 'z'
}

/// An ASCII upper-case letter.
pub open spec fn is_upper(c: char) -> bool {
    'A' <= c && c <= 'Z'
}

/// An ASCII letter or digit.
pub open spec fn is_ascii_alnum(c: char) -> bool {
    is_lower(c) || is_upper(c) || is_digit(c)
}

/// Simple case folding onto the ASCII lower-case letters: upper-case ASCII
/// letters, the long s (U+017F) and the Kelvin sign (U+212A) fold onto their
/// lower-case ASCII counterparts; every other character folds onto itself.
pub open spec fn fold(c: char) -> char {
    if is_upper(c) {
        ((c as u8 + 32) as u8) as char
    } else if c == '\u{17f}' {
        's'
    } else if c == '\u{212a}' {
        'k'
    } else {
        c
    }
}

/// A character with the Unicode `White_Space` property.
pub open spec fn is_space(c: char) -> bool {
    ||| ('\u{9}' <= c && c <= '\u{d}')
    ||| c == ' '
    ||| c == '\u{85}'
    ||| c == '\u{a0}'
    ||| c == '\u{1680}'
    ||| ('\u{2000}' <= c && c <= '\u{200a}')
    ||| c == '\u{2028}'
    ||| c == '\u{2029}'
    ||| c == '\u{202f}'
    ||| c == '\u{205f}'
    ||| c == '\u{3000}'
}

/// Whether `c` is an ASCII decimal digit.
pub fn is_digit_char(c: char) -> (r: bool)
    ensures
        r == is_digit(c),
{
    c >= '0' && c <= '9'
}

/// Whether `c` is an ASCII letter or digit.
pub fn is_alnum_char(c: char) -> (r: bool)
    ensures
        r == is_ascii_alnum(c),
{
    (c >= 'a' && c <= 'z') || (c >= 'A' && c <= 'Z') || (c >= '0' && c <= '9')
}

/// `c` folded onto the ASCII lower-case letters.
pub fn fold_char(c: char) -> (r: char)
    ensures
        r == fold(c),
{
    if c >= 'A' && c <= 'Z' {
        ((c as u8) + 32u8) as char
    } else if c == '\u{17f}' {
        's'
    } else if c == '\u{212a}' {
        'k'
    } else {
        c
    }
}

/// Whether `c` is whitespace.
pub fn is_space_char(c: char) -> (r: bool)
    ensures
        r == is_space(c),
{
    (c >= '\u{9}' && c <= '\u{d}') || c == ' ' || c == '\u{85}' || c == '\u{a0}' || c
        == '\u{1680}' || (c >= '\u{2000}' && c <= '\u{200a}') || c == '\u{2028}' || c
        == '\u{2029}' || c == '\u{202f}' || c == '\u{205f}' || c == '\u{3000}'
}

/// The digit character for `d`.
pub fn digit_char(d: u8) -> (c: char)
    requires
        d < 10,
    ensures
        is_digit(c),
        digit_value(c) == d,
        c == digit_of(d as nat),
{
    (d + 48u8) as char
}

/// The digit character for a number below ten.
pub open spec fn digit_of(d: nat) -> char {
    ((d + 48) as u8) as char
}

// ---------------------------------------------------------------------------
// Strings and character vectors
// ---------------------------------------------------------------------------

/// The characters of `s`, in order.
pub fn chars_of(s: &str) -> (v: Vec<char>)
    ensures
        v@ == s@,
{
    let mut v: Vec<char> = Vec::new();
    for c in it: s.chars()
        invariant
            v@ == it.seq().take(it.index() as int),
            it.seq() == s@,
    {
        v.push(c);
    }
    v
}

/// An owned string with the characters of `s`.
pub fn owned(s: &str) -> (r: String)
    ensures
        r@ == s@,
{
    s.to_owned()
}

/// The text of an optional string.
pub open spec fn text_of(s: Option<String>) -> Option<Seq<char>> {
    match s {
        Some(t) => Some(t@),
        None => None,
    }
}

/// A copy of an optional string.
pub fn copy_text(s: &Option<String>) -> (r: Option<String>)
    ensures
        text_of(r) == text_of(*s),
{
    match s {
        Some(t) => Some(owned(t.as_str())),
        None => None,
    }
}

/// `String::push`: appends one character to the end of the string.
#[verifier::external_body]
fn push_char(buf: &mut String, c: char)
    ensures
        final(buf)@ == old(buf)@.push(c),
{
    buf.push(c)
}

/// The string made of the characters `v[lo..hi]`.
pub fn string_of_range(v: &Vec<char>, lo: usize, hi: usize) -> (r: String)
    requires
        lo <= hi <= v.len(),
    ensures
        r@ == v@.subrange(lo as int, hi as int),
{
    let mut r = String::new();
    let mut i: usize = lo;
    while i < hi
        invariant
            lo <= i <= hi <= v.len(),
            r@ == v@.subrange(lo as int, i as int),
        decreases hi - i,
    {
        push_char(&mut r, v[i]);
        i += 1;
    }
    r
}

/// The string made of the characters of `v`.
pub fn string_of(v: &Vec<char>) -> (r: String)
    ensures
        r@ == v@,
{
    let r = string_of_range(v, 0, v.len());
    assert(v@.subrange(0, v.len() as int) == v@);
    r
}

/// Appends the characters of `s` to `out`.
pub fn push_str(out: &mut Vec<char>, s: &str)
    ensures
        final(out)@ == old(out)@ + s@,
{
    let ghost before = out@;
    for c in it: s.chars()
        invariant
            out@ == before + it.seq().take(it.index() as int),
            it.seq() == s@,
    {
        out.push(c);
    }
}

/// Appends the characters `v[lo..hi]` to `out`.
pub fn push_range(out: &mut Vec<char>, v: &Vec<char>, lo: usize, hi: usize)
    requires
        lo <= hi <= v.len(),
    ensures
        final(out)@ == old(out)@ + v@.subrange(lo as int, hi as int),
{
    let ghost before = out@;
    let mut i: usize = lo;
    while i < hi
        invariant
            lo <= i <= hi <= v.len(),
            out@ == before + v@.subrange(lo as int, i as int),
        decreases hi - i,
    {
        out.push(v[i]);
        i += 1;
    }
}

/// Whether two strings hold the same characters.
pub fn same_text(a: &str, b: &str) -> (r: bool)
    ensures
        r == (a@ == b@),
{
    let x = chars_of(a);
    let y = chars_of(b);
    same_chars(&x, &y)
}

/// Whether two character vectors hold the same characters.
pub fn same_chars(a: &Vec<char>, b: &Vec<char>) -> (r: bool)
    ensures
        r == (a@ == b@),
{
    if a.len() != b.len() {
        return false;
    }
    let mut i: usize = 0;
    while i < a.len()
        invariant
            i <= a.len(),
            a.len() == b.len(),
            forall|j: int| 0 <= j < i ==> a[j] == b[j],
        decreases a.len() - i,
    {
        if a[i] != b[i] {
            return false;
        }
        i += 1;
    }
    assert(a@ =~= b@);
    true
}

// ---------------------------------------------------------------------------
// Whitespace trimming
// ---------------------------------------------------------------------------

/// The first position at or after `i` that holds no whitespace.
pub open spec fn space_end(s: Seq<char>, i: int) -> int
    decreases s.len() - i,
{
    if 0 <= i < s.len() && is_space(s[i]) {
        space_end(s, i + 1)
    } else {
        i
    }
}

/// The position `j` at or before `hi`, not below `lo`, at which the run of
/// whitespace that ends at `hi` begins.
pub open spec fn space_start(s: Seq<char>, lo: int, hi: int) -> int
    decreases hi,
{
    if 0 <= lo < hi <= s.len() && is_space(s[hi - 1]) {
        space_start(s, lo, hi - 1)
    } else {
        hi
    }
}

/// Where the text of `s` without leading whitespace begins.
pub open spec fn trim_lo(s: Seq<char>) -> int {
    space_end(s, 0)
}

/// Where the text of `s` without surrounding whitespace ends.
pub open spec fn trim_hi(s: Seq<char>) -> int {
    space_start(s, trim_lo(s), s.len() as int)
}

/// `s` without leading and trailing whitespace.
pub open spec fn trimmed(s: Seq<char>) -> Seq<char> {
    s.subrange(trim_lo(s), trim_hi(s))
}

/// The bounds of `v` without surrounding whitespace.
pub fn trim_bounds(v: &Vec<char>) -> (r: (usize, usize))
    ensures
        r.0 == trim_lo(v@),
        r.1 == trim_hi(v@),
        r.0 <= r.1 <= v.len(),
{
    let mut lo: usize = 0;
    while lo < v.len() && is_space_char(v[lo])
        invariant
            lo <= v.len(),
            space_end(v@, lo as int) == space_end(v@, 0),
        decreases v.len() - lo,
    {
        lo += 1;
    }
    let mut hi: usize = v.len();
    while hi > lo && is_space_char(v[hi - 1])
        invariant
            lo <= hi <= v.len(),
            space_start(v@, lo as int, hi as int) == space_start(v@, lo as int, v.len() as int),
        decreases hi,
    {
        hi -= 1;
    }
    (lo, hi)
}

/// The characters of `v` without surrounding whitespace.
pub fn trim_chars(v: &Vec<char>) -> (r: Vec<char>)
    ensures
        r@ == trimmed(v@),
{
    let (lo, hi) = trim_bounds(v);
    let mut r: Vec<char> = Vec::new();
    push_range(&mut r, v, lo, hi);
    r
}

// ---------------------------------------------------------------------------
// Decimal numbers
// ---------------------------------------------------------------------------

/// The first position at or after `i` that holds no digit.
pub open spec fn digits_end(s: Seq<char>, i: int) -> int
    decreases s.len() - i,
{
    if 0 <= i < s.len() && is_digit(s[i]) {
        digits_end(s, i + 1)
    } else {
        i
    }
}

/// Whether every character of `s` is a digit.
pub open spec fn all_digits(s: Seq<char>) -> bool {
    forall|i: int| 0 <= i < s.len() ==> is_digit(#[trigger] s[i])
}

/// The number that the digit string `s` denotes in base ten.
pub open spec fn decimal_value(s: Seq<char>) -> nat
    decreases s.len(),
{
    if s.len() == 0 {
        0
    } else {
        decimal_value(s.drop_last()) * 10 + digit_value(s.last())
    }
}

/// The shortest decimal notation of `n`.
pub open spec fn decimal(n: nat) -> Seq<char>
    decreases n,
{
    if n < 10 {
        seq![digit_of(n)]
    } else {
        decimal(n / 10).push(digit_of(n % 10))
    }
}

/// A run of digits that is followed by something else ends where it ends.
pub proof fn lemma_digits_end_is(s: Seq<char>, i: int, e: int)
    requires
        0 <= i <= e <= s.len(),
        forall|j: int| i <= j < e ==> is_digit(#[trigger] s[j]),
        e < s.len() ==> !is_digit(s[e]),
    ensures
        digits_end(s, i) == e,
    decreases e - i,
{
    if i < e {
        lemma_digits_end_is(s, i + 1, e);
    }
}

/// The value of a digit string never shrinks when digits are appended.
pub proof fn lemma_decimal_value_prefix(s: Seq<char>, k: int)
    requires
        0 <= k <= s.len(),
    ensures
        decimal_value(s.take(k)) <= decimal_value(s),
    decreases s.len(),
{
    if k < s.len() {
        lemma_decimal_value_prefix(s.drop_last(), k);
        assert(s.drop_last().take(k) == s.take(k));
    } else {
        assert(s.take(k) == s);
    }
}

/// The decimal notation of a number is a non-empty digit string without a
/// superfluous leading zero, and denotes that number.
pub proof fn lemma_decimal(n: nat)
    ensures
        decimal(n).len() >= 1,
        all_digits(decimal(n)),
        decimal_value(decimal(n)) == n,
    decreases n,
{
    if n < 10 {
        let s = decimal(n);
        assert(s.drop_last() == Seq::<char>::empty());
        assert(decimal_value(s.drop_last()) == 0);
    } else {
        lemma_decimal(n / 10);
        let s = decimal(n);
        assert(s.drop_last() == decimal(n / 10));
    }
}

/// The number denoted by the digits `v[lo..hi]`, unless it exceeds `u64::MAX`.
pub fn parse_number(v: &Vec<char>, lo: usize, hi: usize) -> (r: Option<u64>)
    requires
        lo <= hi <= v.len(),
        all_digits(v@.subrange(lo as int, hi as int)),
    ensures
        match r {
            Some(n) => n == decimal_value(v@.subrange(lo as int, hi as int)),
            None => decimal_value(v@.subrange(lo as int, hi as int)) > u64::MAX,
        },
{
    let ghost whole = v@.subrange(lo as int, hi as int);
    let mut acc: u64 = 0;
    let mut i: usize = lo;
    while i < hi
        invariant
            lo <= i <= hi <= v.len(),
            whole == v@.subrange(lo as int, hi as int),
            all_digits(whole),
            acc == decimal_value(whole.take(i - lo)),
        decreases hi - i,
    {
        let c = v[i];
        assert(whole[i - lo] == c);
        let d: u64 = (c as u32 - '0' as u32) as u64;
        proof {
            let next = whole.take(i - lo + 1);
            assert(next.drop_last() == whole.take(i - lo));
            assert(next.last() == c);
            lemma_decimal_value_prefix(whole, i - lo + 1);
        }
        if acc > (u64::MAX - d) / 10 {
            return None;
        }
        acc = acc * 10 + d;
        i += 1;
    }
    assert(whole.take(hi - lo) == whole);
    Some(acc)
}

/// Appends the decimal notation of `n` to `out`.
pub fn push_decimal(out: &mut Vec<char>, n: u64)
    ensures
        final(out)@ == old(out)@ + decimal(n as nat),
    decreases n,
{
    if n >= 10 {
        push_decimal(out, n / 10);
    }
    out.push(digit_char((n % 10) as u8));
    assert(out@ == old(out)@ + decimal(n as nat));
}

/// The position after the run of digits that starts at `i`.
pub fn scan_digits(v: &Vec<char>, i: usize) -> (e: usize)
    requires
        i <= v.len(),
    ensures
        e == digits_end(v@, i as int),
        i <= e <= v.len(),
        all_digits(v@.subrange(i as int, e as int)),
{
    let mut e: usize = i;
    while e < v.len() && is_digit_char(v[e])
        invariant
            i <= e <= v.len(),
            digits_end(v@, e as int) == digits_end(v@, i as int),
            forall|j: int| i <= j < e ==> is_digit(#[trigger] v@[j]),
        decreases v.len() - e,
    {
        e += 1;
    }
    e
}

// ---------------------------------------------------------------------------
// Words
// ---------------------------------------------------------------------------

/// Whether `w` stands in `s` at position `i`, letter case aside.
pub open spec fn word_at(s: Seq<char>, i: int, w: Seq<char>) -> bool {
    &&& 0 <= i
    &&& i + w.len() <= s.len()
    &&& forall|j: int| 0 <= j < w.len() ==> fold(#[trigger] s[i + j]) == w[j]
}

/// Whether `w` stands in `s` at position `i`, character for character.
pub open spec fn text_at(s: Seq<char>, i: int, w: Seq<char>) -> bool {
    &&& 0 <= i
    &&& i + w.len() <= s.len()
    &&& s.subrange(i, i + w.len()) == w
}

/// Whether `w` occurs somewhere in `s`.
pub open spec fn contains_text(s: Seq<char>, w: Seq<char>) -> bool {
    exists|i: int| text_at(s, i, w)
}

/// Whether the folded characters of `v` at `i` spell `w`.
pub fn word_at_pos(v: &Vec<char>, i: usize, w: &Vec<char>) -> (r: bool)
    requires
        i <= v.len(),
    ensures
        r == word_at(v@, i as int, w@),
{
    if w.len() > v.len() - i {
        return false;
    }
    let mut j: usize = 0;
    while j < w.len()
        invariant
            j <= w.len(),
            i + w.len() <= v.len(),
            forall|k: int| 0 <= k < j ==> fold(#[trigger] v@[i + k]) == w@[k],
        decreases w.len() - j,
    {
        if fold_char(v[i + j]) != w[j] {
            return false;
        }
        j += 1;
    }
    true
}

/// Whether the characters of `v` at `i` are exactly `w`.
pub fn text_at_pos(v: &Vec<char>, i: usize, w: &Vec<char>) -> (r: bool)
    requires
        i <= v.len(),
    ensures
        r == text_at(v@, i as int, w@),
{
    if w.len() > v.len() - i {
        return false;
    }
    let mut j: usize = 0;
    while j < w.len()
        invariant
            j <= w.len(),
            i + w.len() <= v.len(),
            forall|k: int| 0 <= k < j ==> v@[i + k] == w@[k],
        decreases w.len() - j,
    {
        if v[i + j] != w[j] {
            assert(v@.subrange(i as int, i + w.len())[j as int] != w@[j as int]);
            return false;
        }
        j += 1;
    }
    assert(v@.subrange(i as int, i + w.len()) =~= w@);
    true
}

/// The first position at or after `from` where `w` stands in `v`.
pub fn find_text(v: &Vec<char>, from: usize, w: &Vec<char>) -> (r: Option<usize>)
    requires
        from <= v.len(),
    ensures
        match r {
            Some(i) => from <= i && text_at(v@, i as int, w@) && forall|k: int|
                from <= k < i ==> !text_at(v@, k, w@),
            None => forall|k: int| from <= k ==> !text_at(v@, k, w@),
        },
{
    let mut i: usize = from;
    while i <= v.len()
        invariant
            from <= i <= v.len() + 1,
            forall|k: int| from <= k < i ==> !text_at(v@, k, w@),
        decreases v.len() + 1 - i,
    {
        if text_at_pos(v, i, w) {
            return Some(i);
        }
        if i == v.len() {
            return None;
        }
        i += 1;
    }
    None
}

/// Whether `w` occurs somewhere in `v`.
pub fn contains_chars(v: &Vec<char>, w: &Vec<char>) -> (r: bool)
    ensures
        r == contains_text(v@, w@),
{
    match find_text(v, 0, w) {
        Some(i) => {
            assert(text_at(v@, i as int, w@));
            true
        },
        None => false,
    }
}


// ---------------------------------------------------------------------------
// Lexicographic order
// ---------------------------------------------------------------------------

/// The sign of `a - b`: -1, 0 or 1.
pub open spec fn int_order(a: int, b: int) -> int {
    if a < b {
        -1
    } else if a > b {
        1
    } else {
        0
    }
}

/// Lexicographic combination: `x` decides unless it is 0, then `y` does.
pub open spec fn order_then(x: int, y: int) -> int {
    if x != 0 {
        x
    } else {
        y
    }
}

/// Lexicographic order of `a` and `b` by code point, from position `i` on,
/// as a sign.
pub open spec fn text_order_from(a: Seq<char>, b: Seq<char>, i: int) -> int
    decreases a.len() - i,
{
    if i < 0 {
        0
    } else if i >= a.len() {
        if i >= b.len() {
            0
        } else {
            -1
        }
    } else if i >= b.len() {
        1
    } else if a[i] != b[i] {
        int_order(a[i] as int, b[i] as int)
    } else {
        text_order_from(a, b, i + 1)
    }
}

/// Lexicographic order of `a` and `b` by code point, as a sign.
pub open spec fn text_order(a: Seq<char>, b: Seq<char>) -> int {
    text_order_from(a, b, 0)
}

/// The order of texts yields a sign, reverses when its arguments are
/// exchanged, and puts a text in neither order with itself.
pub proof fn lemma_text_order_sign(a: Seq<char>, b: Seq<char>, i: int)
    ensures
        -1 <= text_order_from(a, b, i) <= 1,
        text_order_from(a, b, i) == -text_order_from(b, a, i),
        text_order_from(a, a, i) == 0,
    decreases a.len() - i,
{
    if i >= 0 && i < a.len() {
        lemma_text_order_sign(a, a, i + 1);
        if i < b.len() && a[i] == b[i] {
            lemma_text_order_sign(a, b, i + 1);
        }
    }
}

/// The order of texts is transitive, strictly so where one of the two steps
/// is strict.
pub proof fn lemma_text_order_transitive(a: Seq<char>, b: Seq<char>, c: Seq<char>, i: int)
    requires
        0 <= i,
        text_order_from(a, b, i) <= 0,
        text_order_from(b, c, i) <= 0,
    ensures
        text_order_from(a, c, i) <= 0,
        text_order_from(a, b, i) < 0 || text_order_from(b, c, i) < 0 ==> text_order_from(a, c, i)
            < 0,
    decreases a.len() - i,
{
    if i < a.len() && i < b.len() && i < c.len() && a[i] == b[i] && b[i] == c[i] {
        lemma_text_order_transitive(a, b, c, i + 1);
    }
}

/// The sign of the order of two numbers.
pub fn order_u64(a: u64, b: u64) -> (r: i8)
    ensures
        r == int_order(a as int, b as int),
{
    if a < b {
        -1
    } else if a > b {
        1
    } else {
        0
    }
}

/// The sign of the lexicographic order of two character vectors.
pub fn order_chars(a: &Vec<char>, b: &Vec<char>) -> (r: i8)
    ensures
        r == text_order(a@, b@),
{
    let mut i: usize = 0;
    while i < a.len() && i < b.len()
        invariant
            i <= a.len(),
            i <= b.len(),
            text_order_from(a@, b@, i as int) == text_order(a@, b@),
        decreases a.len() - i,
    {
        if a[i] < b[i] {
            return -1;
        }
        if a[i] > b[i] {
            return 1;
        }
        i += 1;
    }
    if i < b.len() {
        -1
    } else if i < a.len() {
        1
    } else {
        0
    }
}

/// The sign of the lexicographic order of two strings.
pub fn order_text(a: &str, b: &str) -> (r: i8)
    ensures
        r == text_order(a@, b@),
{
    let x = chars_of(a);
    let y = chars_of(b);
    order_chars(&x, &y)
}

// ---------------------------------------------------------------------------
// Splitting
// ---------------------------------------------------------------------------

/// The first position at or after `i` that holds `c`; the length of `s`
/// where there is none.
pub open spec fn index_of(s: Seq<char>, c: char, i: int) -> int
    decreases s.len() - i,
{
    if 0 <= i < s.len() && s[i] != c {
        index_of(s, c, i + 1)
    } else if i < s.len() {
        i
    } else {
        s.len() as int
    }
}

/// The pieces of `s` between the occurrences of `c`, from position `i` on.
/// There is one piece more than there are occurrences.
pub open spec fn split_from(s: Seq<char>, c: char, i: int) -> Seq<Seq<char>>
    decreases s.len() - i,
{
    let k = index_of(s, c, i);
    if 0 <= i <= k < s.len() {
        seq![s.subrange(i, k)] + split_from(s, c, k + 1)
    } else {
        seq![s.subrange(i, s.len() as int)]
    }
}

/// The pieces of `s` between the occurrences of `c`.
pub open spec fn split(s: Seq<char>, c: char) -> Seq<Seq<char>> {
    split_from(s, c, 0)
}

/// The texts of a sequence of character vectors.
pub open spec fn rows(v: Seq<Vec<char>>) -> Seq<Seq<char>> {
    Seq::new(v.len(), |i: int| v[i]@)
}

/// The texts of a sequence of strings.
pub open spec fn texts(v: Seq<String>) -> Seq<Seq<char>> {
    Seq::new(v.len(), |i: int| v[i]@)
}

/// Splitting yields at least one piece.
pub proof fn lemma_split_nonempty(s: Seq<char>, c: char, i: int)
    ensures
        split_from(s, c, i).len() >= 1,
    decreases s.len() - i,
{
    let k = index_of(s, c, i);
    if 0 <= i <= k < s.len() {
        lemma_split_nonempty(s, c, k + 1);
    }
}

/// The first position at or after `i` that holds `c`, or the length.
pub fn find_char(v: &Vec<char>, c: char, i: usize) -> (r: usize)
    requires
        i <= v.len(),
    ensures
        r == index_of(v@, c, i as int),
        i <= r <= v.len(),
{
    let mut k: usize = i;
    while k < v.len() && v[k] != c
        invariant
            i <= k <= v.len(),
            index_of(v@, c, k as int) == index_of(v@, c, i as int),
        decreases v.len() - k,
    {
        k += 1;
    }
    k
}

/// A copy of the characters `v[lo..hi]`.
pub fn copy_range(v: &Vec<char>, lo: usize, hi: usize) -> (r: Vec<char>)
    requires
        lo <= hi <= v.len(),
    ensures
        r@ == v@.subrange(lo as int, hi as int),
{
    let mut r: Vec<char> = Vec::new();
    push_range(&mut r, v, lo, hi);
    r
}

/// The pieces of `v` between the occurrences of `c`.
pub fn split_chars(v: &Vec<char>, c: char) -> (r: Vec<Vec<char>>)
    ensures
        rows(r@) == split(v@, c),
{
    let mut out: Vec<Vec<char>> = Vec::new();
    let mut i: usize = 0;
    loop
        invariant
            i <= v.len(),
            split(v@, c) == rows(out@) + split_from(v@, c, i as int),
        decreases v.len() - i,
    {
        let k = find_char(v, c, i);
        let ghost before = out@;
        if k < v.len() {
            let piece = copy_range(v, i, k);
            out.push(piece);
            assert(rows(out@) =~= rows(before) + seq![v@.subrange(i as int, k as int)]);
            assert(rows(before) + (seq![v@.subrange(i as int, k as int)] + split_from(
                v@,
                c,
                k + 1,
            )) =~= rows(out@) + split_from(v@, c, k + 1));
            i = k + 1;
        } else {
            let piece = copy_range(v, i, v.len());
            out.push(piece);
            assert(rows(out@) =~= rows(before) + seq![v@.subrange(i as int, v.len() as int)]);
            return out;
        }
    }
}

/// The strings with the texts of `v`.
pub fn strings_of(v: &Vec<Vec<char>>) -> (r: Vec<String>)
    ensures
        texts(r@) == rows(v@),
{
    let mut out: Vec<String> = Vec::new();
    let mut i: usize = 0;
    while i < v.len()
        invariant
            i <= v.len(),
            out.len() == i,
            forall|j: int| 0 <= j < i ==> out[j]@ == v[j]@,
        decreases v.len() - i,
    {
        out.push(string_of(&v[i]));
        i += 1;
    }
    assert(texts(out@) =~= rows(v@));
    out
}

/// Copies of the strings in `v`.
pub fn clone_strings(v: &Vec<String>) -> (r: Vec<String>)
    ensures
        texts(r@) == texts(v@),
{
    let mut out: Vec<String> = Vec::new();
    let mut i: usize = 0;
    while i < v.len()
        invariant
            i <= v.len(),
            out.len() == i,
            forall|j: int| 0 <= j < i ==> out[j]@ == v[j]@,
        decreases v.len() - i,
    {
        out.push(v[i].clone());
        i += 1;
    }
    assert(texts(out@) =~= texts(v@));
    out
}

/// The first position at or after `i` where `w` stands in `s`.
pub open spec fn find_spec(s: Seq<char>, w: Seq<char>, i: int) -> Option<int>
    decreases s.len() + 1 - i,
{
    if 0 <= i <= s.len() {
        if text_at(s, i, w) {
            Some(i)
        } else {
            find_spec(s, w, i + 1)
        }
    } else {
        None
    }
}

/// The first position at or after `from` where `w` stands in `v`.
pub fn position_of_text(v: &Vec<char>, from: usize, w: &Vec<char>) -> (r: Option<usize>)
    requires
        from <= v.len(),
    ensures
        match r {
            Some(i) => find_spec(v@, w@, from as int) == Some(i as int) && from <= i && i
                + w.len() <= v.len(),
            None => find_spec(v@, w@, from as int) is None,
        },
{
    let mut i: usize = from;
    while i <= v.len()
        invariant
            from <= i <= v.len() + 1,
            find_spec(v@, w@, i as int) == find_spec(v@, w@, from as int),
        decreases v.len() + 1 - i,
    {
        if text_at_pos(v, i, w) {
            return Some(i);
        }
        if i == v.len() {
            assert(find_spec(v@, w@, i + 1) is None);
            return None;
        }
        i += 1;
    }
    None
}

// ---------------------------------------------------------------------------
// Joining
// ---------------------------------------------------------------------------

/// The parts from `i` on, with `sep` between each two.
pub open spec fn join_from(parts: Seq<Seq<char>>, sep: Seq<char>, i: int) -> Seq<char>
    decreases parts.len() - i,
{
    if 0 <= i < parts.len() {
        if i + 1 < parts.len() {
            parts[i] + sep + join_from(parts, sep, i + 1)
        } else {
            parts[i]
        }
    } else {
        Seq::empty()
    }
}

/// The parts with `sep` between each two.
pub open spec fn join(parts: Seq<Seq<char>>, sep: Seq<char>) -> Seq<char> {
    join_from(parts, sep, 0)
}

/// Appends the parts, with `sep` between each two, to `out`.
pub fn push_joined(out: &mut Vec<char>, parts: &Vec<Vec<char>>, sep: &str)
    ensures
        final(out)@ == old(out)@ + join(rows(parts@), sep@),
{
    let ghost ps = rows(parts@);
    let ghost head = out@;
    let ghost mut done: Seq<char> = Seq::empty();
    assert(head + done =~= head);
    let mut i: usize = 0;
    while i < parts.len()
        invariant
            i <= parts.len(),
            ps == rows(parts@),
            out@ == head + done,
            done + join_from(ps, sep@, i as int) == join_from(ps, sep@, 0),
        decreases parts.len() - i,
    {
        assert(ps[i as int] == parts[i as int]@);
        push_range(out, &parts[i], 0, parts[i].len());
        assert(parts[i as int]@.subrange(0, parts[i as int].len() as int) =~= parts[i as int]@);
        if i + 1 < parts.len() {
            push_str(out, sep);
            proof {
                let piece = ps[i as int] + sep@;
                assert(out@ =~= head + (done + piece));
                assert((done + piece) + join_from(ps, sep@, i + 1) =~= done + (ps[i as int] + sep@
                    + join_from(ps, sep@, i + 1)));
                done = done + piece;
            }
        } else {
            proof {
                assert(join_from(ps, sep@, i + 1) =~= Seq::<char>::empty());
                assert(out@ =~= head + (done + ps[i as int]));
                assert((done + ps[i as int]) + join_from(ps, sep@, i + 1) =~= done + ps[i as int]);
                done = done + ps[i as int];
            }
        }
        i += 1;
    }
    proof {
        assert(done + Seq::<char>::empty() =~= done);
    }
}

// ---------------------------------------------------------------------------
// Words between whitespace
// ---------------------------------------------------------------------------

/// The first position at or after `i` that holds whitespace, or the length.
pub open spec fn word_end(s: Seq<char>, i: int) -> int
    decreases s.len() - i,
{
    if 0 <= i < s.len() && !is_space(s[i]) {
        word_end(s, i + 1)
    } else {
        i
    }
}

/// The position after the whitespace that starts at `i`.
pub fn skip_spaces(s: &Vec<char>, i: usize) -> (r: usize)
    requires
        i <= s.len(),
    ensures
        r == space_end(s@, i as int),
        i <= r <= s.len(),
{
    let mut k: usize = i;
    while k < s.len() && is_space_char(s[k])
        invariant
            i <= k <= s.len(),
            space_end(s@, k as int) == space_end(s@, i as int),
        decreases s.len() - k,
    {
        k += 1;
    }
    k
}

/// The position after the word that starts at `i`.
pub fn skip_word(s: &Vec<char>, i: usize) -> (r: usize)
    requires
        i <= s.len(),
    ensures
        r == word_end(s@, i as int),
        i <= r <= s.len(),
{
    let mut k: usize = i;
    while k < s.len() && !is_space_char(s[k])
        invariant
            i <= k <= s.len(),
            word_end(s@, k as int) == word_end(s@, i as int),
        decreases s.len() - k,
    {
        k += 1;
    }
    k
}

/// Whether the strings of `v` include the text `name`.
pub fn includes(v: &Vec<String>, name: &str) -> (r: bool)
    ensures
        r == texts(v@).contains(name@),
{
    let mut i: usize = 0;
    while i < v.len()
        invariant
            i <= v.len(),
            forall|j: int| 0 <= j < i ==> texts(v@)[j] != name@,
        decreases v.len() - i,
    {
        if same_text(v[i].as_str(), name) {
            assert(texts(v@)[i as int] == name@);
            return true;
        }
        i += 1;
    }
    false
}

/// Whether the text is the two characters `a` and `b`.
pub fn is_pair(o: &Vec<char>, a: char, b: char) -> (r: bool)
    ensures
        r == (o@ == seq![a, b]),
{
    let r = o.len() == 2 && o[0] == a && o[1] == b;
    proof {
        if r {
            assert(o@ =~= seq![a, b]);
        } else if o@ == seq![a, b] {
            assert(o@[0] == a && o@[1] == b);
        }
    }
    r
}

// ---------------------------------------------------------------------------
// Lines
// ---------------------------------------------------------------------------

/// A piece of text without the carriage return at its end, if it has one.
pub open spec fn without_return(piece: Seq<char>) -> Seq<char> {
    if piece.len() > 0 && piece.last() == '\r' {
        piece.drop_last()
    } else {
        piece
    }
}

/// The lines of a text. A line ends with a line feed, which is no part of
/// it, and neither is a carriage return directly before the line feed. What
/// follows the last line feed is a line too, unless it is empty.
pub open spec fn lines_of(s: Seq<char>) -> Seq<Seq<char>> {
    let parts = split(s, '\n');
    let n = if parts.last().len() == 0 {
        parts.len() - 1
    } else {
        parts.len() as int
    };
    Seq::new(
        n as nat,
        |i: int|
            if i < parts.len() - 1 {
                without_return(parts[i])
            } else {
                parts[i]
            },
    )
}

/// The lines of a text: see [`lines_of`].
pub fn split_lines(v: &Vec<char>) -> (r: Vec<Vec<char>>)
    ensures
        rows(r@) == lines_of(v@),
{
    let parts = split_chars(v, '\n');
    proof {
        lemma_split_nonempty(v@, '\n', 0);
    }
    let n = parts.len();
    assert(rows(parts@)[n - 1] == parts[n - 1]@);
    let keep = if parts[n - 1].len() == 0 {
        n - 1
    } else {
        n
    };
    let ghost all = lines_of(v@);
    let mut out: Vec<Vec<char>> = Vec::new();
    let mut i: usize = 0;
    while i < keep
        invariant
            i <= keep <= n,
            n == parts.len(),
            rows(parts@) == split(v@, '\n'),
            all == lines_of(v@),
            all.len() == keep,
            out@.len() == i,
            forall|j: int| 0 <= j < i ==> (#[trigger] out@[j])@ == all[j],
        decreases keep - i,
    {
        let piece = &parts[i];
        assert(rows(parts@)[i as int] == piece@);
        let len = piece.len();
        let line = if i + 1 < n && len > 0 && piece[len - 1] == '\r' {
            assert(piece@.drop_last() =~= piece@.subrange(0, len - 1));
            copy_range(piece, 0, len - 1)
        } else {
            assert(piece@.subrange(0, len as int) =~= piece@);
            copy_range(piece, 0, len)
        };
        out.push(line);
        i += 1;
    }
    assert(rows(out@) =~= all);
    out
}

} // verus!
