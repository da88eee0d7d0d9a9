//! Character-level building blocks shared by the text formatters: searching
//! for two-character markers, copying ranges, and decimal numerals.

use vstd::prelude::*;

verus! {

/// `s` holds the two characters `a`, `b` at positions `i`, `i + 1`.
pub open spec fn pair_at(s: Seq<char>, i: int, a: char, b: char) -> bool {
    0 <= i && i + 1 < s.len() && s[i] == a && s[i + 1] == b
}

/// The first position `i >= from` at which `s` holds the pair `a b`,
/// or `-1` when there is none.
pub open spec fn find_pair(s: Seq<char>, from: int, a: char, b: char) -> int
    decreases s.len() - from,
{
    if from < 0 || from + 1 >= s.len() {
        -1
    } else if pair_at(s, from, a, b) {
        from
    } else {
        find_pair(s, from + 1, a, b)
    }
}

/// `s` contains the two-character string `a b` somewhere.
pub open spec fn contains_pair(s: Seq<char>, a: char, b: char) -> bool {
    exists|i: int| pair_at(s, i, a, b)
}

/// The character of a decimal digit.
pub open spec fn digit(d: nat) -> char {
    if d == 0 { '0' }
    else if d == 1 { '1' }
    else if d == 2 { '2' }
    else if d == 3 { '3' }
    else if d == 4 { '4' }
    else if d == 5 { '5' }
    else if d == 6 { '6' }
    else if d == 7 { '7' }
    else if d == 8 { '8' }
    else { '9' }
}

/// The decimal numeral of `n`, without leading zeros.
pub open spec fn decimal(n: nat) -> Seq<char>
    decreases n,
{
    if n < 10 {
        seq![digit(n)]
    } else {
        decimal(n / 10).push(digit(n % 10))
    }
}

/// What `find_pair` returns is either `-1` or a position of the pair, with no
/// earlier position of the pair at or after `from`.
pub proof fn lemma_find_pair(s: Seq<char>, from: int, a: char, b: char)
    requires
        0 <= from,
    ensures
        find_pair(s, from, a, b) == -1 || (from <= find_pair(s, from, a, b) && pair_at(
            s,
            find_pair(s, from, a, b),
            a,
            b,
        )),
        forall|j: int|
            #![trigger pair_at(s, j, a, b)]
            from <= j && (find_pair(s, from, a, b) == -1 || j < find_pair(s, from, a, b))
                ==> !pair_at(s, j, a, b),
    decreases s.len() - from,
{
    if from + 1 >= s.len() {
    } else if pair_at(s, from, a, b) {
    } else {
        lemma_find_pair(s, from + 1, a, b);
    }
}

/// Searching from `from` or from `to` finds the same pair when there is none
/// in between.
pub proof fn lemma_find_pair_skip(s: Seq<char>, from: int, to: int, a: char, b: char)
    requires
        0 <= from <= to,
        forall|j: int| from <= j < to ==> !#[trigger] pair_at(s, j, a, b),
    ensures
        find_pair(s, from, a, b) == find_pair(s, to, a, b),
    decreases to - from,
{
    if from < to {
        assert(!pair_at(s, from, a, b));
        if from + 1 < s.len() {
            lemma_find_pair_skip(s, from + 1, to, a, b);
        }
    }
}

/// Searching `x + y` past `x` is searching `y`.
pub proof fn lemma_find_pair_shift(x: Seq<char>, y: Seq<char>, j: int, a: char, b: char)
    requires
        0 <= j,
    ensures
        find_pair(x + y, x.len() + j, a, b) == (if find_pair(y, j, a, b) < 0 {
            -1
        } else {
            x.len() + find_pair(y, j, a, b)
        }),
    decreases y.len() - j,
{
    let s = x + y;
    if j + 1 < y.len() {
        assert(pair_at(s, x.len() + j, a, b) == pair_at(y, j, a, b));
        lemma_find_pair_shift(x, y, j + 1, a, b);
    }
}

/// Every character of a decimal numeral is a digit.
pub proof fn lemma_decimal_digits(n: nat)
    ensures
        forall|i: int| 0 <= i < decimal(n).len() ==> '0' <= #[trigger] decimal(n)[i] <= '9',
        decimal(n).len() > 0,
    decreases n,
{
    if n >= 10 {
        lemma_decimal_digits(n / 10);
    }
}

/// The number that a string of decimal digits denotes, read in base ten.
pub open spec fn decimal_value(s: Seq<char>) -> int
    decreases s.len(),
{
    if s.len() == 0 {
        0
    } else {
        decimal_value(s.drop_last()) * 10 + (s.last() as int - '0' as int)
    }
}

/// The numeral of `n` reads back as `n`: it is made of digits `0`..`9`,
/// and in base ten it denotes `n`. So each number gets its own numeral.
pub proof fn law_decimal_denotes_its_number(n: nat)
    ensures
        decimal_value(decimal(n)) == n,
        forall|i: int|
            0 <= i < decimal(n).len() ==> '0' as int <= #[trigger] decimal(n)[i] as int <= '9' as int,
        decimal(n).len() > 0,
        n > 0 ==> decimal(n)[0] != '0',
    decreases n,
{
    assert(digit(0) as int == '0' as int + 0);
    assert(digit(1) as int == '0' as int + 1);
    assert(digit(2) as int == '0' as int + 2);
    assert(digit(3) as int == '0' as int + 3);
    assert(digit(4) as int == '0' as int + 4);
    assert(digit(5) as int == '0' as int + 5);
    assert(digit(6) as int == '0' as int + 6);
    assert(digit(7) as int == '0' as int + 7);
    assert(digit(8) as int == '0' as int + 8);
    assert(digit(9) as int == '0' as int + 9);
    if n < 10 {
        let s = decimal(n);
        assert(s.drop_last() =~= Seq::<char>::empty());
        assert(decimal_value(s) == decimal_value(Seq::<char>::empty()) * 10 + (digit(n) as int - '0' as int));
    } else {
        law_decimal_denotes_its_number(n / 10);
        let s = decimal(n);
        let d = (n % 10) as nat;
        assert(s.drop_last() =~= decimal(n / 10));
        assert(s.last() == digit(d));
        assert(decimal_value(s) == (n / 10) as int * 10 + d);
        assert forall|i: int| 0 <= i < s.len() implies '0' as int <= #[trigger] s[i] as int <= '9' as int by {
            if i < s.len() - 1 {
                assert(s[i] == decimal(n / 10)[i]);
            }
        }
        assert(s[0] == decimal(n / 10)[0]);
    }
}

/// Appends one character to a `String` (`String::push`).
/// Trusted: the documentation of `String::push` says that the character is
/// appended to the end of the string.
#[verifier::external_body]
pub(crate) fn push_char(s: &mut String, c: char)
    ensures
        final(s)@ == old(s)@.push(c),
{
    s.push(c);
}

/// The characters of a string slice, in order.
pub(crate) fn chars_of(s: &str) -> (v: Vec<char>)
    ensures
        v@ == s@,
{
    let mut v: Vec<char> = Vec::new();
    for c in it: s.chars()
        invariant
            it.seq() == s@,
            v@ == it.seq().take(it.index() as int),
    {
        v.push(c);
    }
    v
}

/// Appends the characters `v[from..to]` to `out`.
pub(crate) fn push_range(out: &mut String, v: &Vec<char>, from: usize, to: usize)
    requires
        from <= to <= v@.len(),
    ensures
        final(out)@ == old(out)@ + v@.subrange(from as int, to as int),
{
    let mut i = from;
    while i < to
        invariant
            from <= i <= to <= v@.len(),
            out@ == old(out)@ + v@.subrange(from as int, i as int),
        decreases to - i,
    {
        push_char(out, v[i]);
        i = i + 1;
        assert(v@.subrange(from as int, i as int) =~= v@.subrange(from as int, (i - 1) as int).push(
            v@[i - 1],
        ));
    }
}

/// The first position at or after `from` at which `v` holds the pair `a b`.
pub(crate) fn find_pair_from(v: &Vec<char>, from: usize, a: char, b: char) -> (r: Option<usize>)
    requires
        from <= v@.len(),
    ensures
        match r {
            Some(i) => i as int == find_pair(v@, from as int, a, b),
            None => find_pair(v@, from as int, a, b) == -1,
        },
{
    let n = v.len();
    let mut i = from;
    while n - i > 1
        invariant
            from <= i <= n,
            n == v@.len(),
            find_pair(v@, i as int, a, b) == find_pair(v@, from as int, a, b),
        decreases n - i,
    {
        if v[i] == a && v[i + 1] == b {
            return Some(i);
        }
        i = i + 1;
    }
    None
}

/// Whether the pair `a b` occurs inside `v[from..to]`.
pub(crate) fn has_pair_within(v: &Vec<char>, from: usize, to: usize, a: char, b: char) -> (r: bool)
    requires
        from <= to <= v@.len(),
    ensures
        r == contains_pair(v@.subrange(from as int, to as int), a, b),
{
    let ghost sub = v@.subrange(from as int, to as int);
    let mut i = from;
    while to - i > 1
        invariant
            from <= i <= to <= v@.len(),
            sub == v@.subrange(from as int, to as int),
            forall|j: int| 0 <= j < i - from ==> !#[trigger] pair_at(sub, j, a, b),
        decreases to - i,
    {
        if v[i] == a && v[i + 1] == b {
            assert(pair_at(sub, i - from, a, b));
            return true;
        }
        i = i + 1;
    }
    assert forall|j: int| !#[trigger] pair_at(sub, j, a, b) by {
        if pair_at(sub, j, a, b) {
            assert(j < i - from);
        }
    }
    false
}

fn digit_char(d: usize) -> (c: char)
    requires
        d < 10,
    ensures
        c == digit(d as nat),
{
    if d == 0 { '0' }
    else if d == 1 { '1' }
    else if d == 2 { '2' }
    else if d == 3 { '3' }
    else if d == 4 { '4' }
    else if d == 5 { '5' }
    else if d == 6 { '6' }
    else if d == 7 { '7' }
    else if d == 8 { '8' }
    else { '9' }
}

/// Appends the decimal numeral of `n` to `out`.
pub(crate) fn push_decimal(out: &mut String, n: usize)
    ensures
        final(out)@ == old(out)@ + decimal(n as nat),
    decreases n,
{
    if n >= 10 {
        push_decimal(out, n / 10);
    }
    push_char(out, digit_char(n % 10));
    proof {
        if n >= 10 {
            assert(decimal(n as nat) == decimal((n / 10) as nat).push(digit((n % 10) as nat)));
        }
    }
}


/// Unicode `White_Space`, the whitespace of `char::is_whitespace` and `str::trim`.
pub open spec fn is_white_space(c: char) -> bool {
    ('\t' <= c && c <= '\r') || c == ' ' || c == '\u{85}' || c == '\u{a0}' || c == '\u{1680}' || (
    '\u{2000}' <= c && c <= '\u{200a}') || c == '\u{2028}' || c == '\u{2029}' || c == '\u{202f}'
        || c == '\u{205f}' || c == '\u{3000}'
}

/// `s` without its leading whitespace.
pub open spec fn trim_start(s: Seq<char>) -> Seq<char>
    decreases s.len(),
{
    if s.len() > 0 && is_white_space(s[0]) {
        trim_start(s.drop_first())
    } else {
        s
    }
}

/// `s` without its trailing whitespace.
pub open spec fn trim_end(s: Seq<char>) -> Seq<char>
    decreases s.len(),
{
    if s.len() > 0 && is_white_space(s.last()) {
        trim_end(s.drop_last())
    } else {
        s
    }
}

/// `s` without its leading and trailing whitespace.
pub open spec fn trimmed(s: Seq<char>) -> Seq<char> {
    trim_end(trim_start(s))
}

fn white_space(c: char) -> (r: bool)
    ensures
        r == is_white_space(c),
{
    (c >= '\t' && c <= '\r') || c == ' ' || c == '\u{85}' || c == '\u{a0}' || c == '\u{1680}' || (
    c >= '\u{2000}' && c <= '\u{200a}') || c == '\u{2028}' || c == '\u{2029}' || c == '\u{202f}'
        || c == '\u{205f}' || c == '\u{3000}'
}

proof fn lemma_trim_start(s: Seq<char>, i: int)
    requires
        0 <= i <= s.len(),
        forall|k: int| 0 <= k < i ==> is_white_space(#[trigger] s[k]),
        i == s.len() || !is_white_space(s[i]),
    ensures
        trim_start(s) == s.skip(i),
    decreases i,
{
    if i == 0 {
        assert(s.skip(0) =~= s);
    } else {
        assert(is_white_space(s[0]));
        let t = s.drop_first();
        assert forall|k: int| 0 <= k < i - 1 implies is_white_space(#[trigger] t[k]) by {
            assert(t[k] == s[k + 1]);
        }
        lemma_trim_start(t, i - 1);
        assert(t.skip(i - 1) =~= s.skip(i));
    }
}

proof fn lemma_trim_end(s: Seq<char>, j: int)
    requires
        0 <= j <= s.len(),
        forall|k: int| j <= k < s.len() ==> is_white_space(#[trigger] s[k]),
        j == 0 || !is_white_space(s[j - 1]),
    ensures
        trim_end(s) == s.take(j),
    decreases s.len() - j,
{
    if j == s.len() {
        assert(s.take(j) =~= s);
    } else {
        assert(is_white_space(s.last()));
        let t = s.drop_last();
        assert forall|k: int| j <= k < t.len() implies is_white_space(#[trigger] t[k]) by {
            assert(t[k] == s[k]);
        }
        lemma_trim_end(t, j);
        assert(t.take(j) =~= s.take(j));
    }
}

/// `s` without its leading and trailing whitespace, as `str::trim` gives it.
pub fn trim(s: &str) -> (r: String)
    ensures
        r@ == trimmed(s@),
{
    let v = chars_of(s);
    let n = v.len();
    let mut i: usize = 0;
    while i < n && white_space(v[i])
        invariant
            i <= n,
            n == v@.len(),
            forall|k: int| 0 <= k < i ==> is_white_space(#[trigger] v@[k]),
        decreases n - i,
    {
        i = i + 1;
    }
    let mut j: usize = n;
    while j > i && white_space(v[j - 1])
        invariant
            i <= j <= n,
            n == v@.len(),
            forall|k: int| j <= k < n ==> is_white_space(#[trigger] v@[k]),
        decreases j,
    {
        j = j - 1;
    }
    proof {
        lemma_trim_start(v@, i as int);
        let t = v@.skip(i as int);
        assert forall|k: int| j - i <= k < t.len() implies is_white_space(#[trigger] t[k]) by {
            assert(t[k] == v@[k + i]);
        }
        lemma_trim_end(t, j - i);
        assert(t.take(j - i) =~= v@.subrange(i as int, j as int));
    }
    let mut r = String::new();
    push_range(&mut r, &v, i, j);
    assert(r@ =~= v@.subrange(i as int, j as int));
    r
}

} // verus!
