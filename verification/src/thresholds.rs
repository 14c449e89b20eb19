//! k6 threshold expressions.
//!
//! A k6 threshold names its metric by the key it stands under and writes only a
//! statistic: `p(95)<500`, `avg<200 && max<1000`. The evaluator of the runner
//! wants the metric in each clause: `http_req_duration.p(95) < 500`. A clause
//! that does not have the form of a k6 clause is kept as it is, without the
//! white space around it.

use crate::string_map::StringMap;
use crate::text;
use vstd::arithmetic::power::lemma_pow_adds;
use vstd::arithmetic::power::pow;
use vstd::prelude::*;
use vstd::string::*;

verus! {

// ── decimal digits and numbers ──

/// The characters of the Unicode general category Decimal_Number.
#[verifier::opaque]
pub open spec fn is_digit(c: char) -> bool {
    let n = c as u32;
    ||| 0x30 <= n <= 0x39
    ||| 0x660 <= n <= 0x669
    ||| 0x6f0 <= n <= 0x6f9
    ||| 0x7c0 <= n <= 0x7c9
    ||| 0x966 <= n <= 0x96f
    ||| 0x9e6 <= n <= 0x9ef
    ||| 0xa66 <= n <= 0xa6f
    ||| 0xae6 <= n <= 0xaef
    ||| 0xb66 <= n <= 0xb6f
    ||| 0xbe6 <= n <= 0xbef
    ||| 0xc66 <= n <= 0xc6f
    ||| 0xce6 <= n <= 0xcef
    ||| 0xd66 <= n <= 0xd6f
    ||| 0xde6 <= n <= 0xdef
    ||| 0xe50 <= n <= 0xe59
    ||| 0xed0 <= n <= 0xed9
    ||| 0xf20 <= n <= 0xf29
    ||| 0x1040 <= n <= 0x1049
    ||| 0x1090 <= n <= 0x1099
    ||| 0x17e0 <= n <= 0x17e9
    ||| 0x1810 <= n <= 0x1819
    ||| 0x1946 <= n <= 0x194f
    ||| 0x19d0 <= n <= 0x19d9
    ||| 0x1a80 <= n <= 0x1a89
    ||| 0x1a90 <= n <= 0x1a99
    ||| 0x1b50 <= n <= 0x1b59
    ||| 0x1bb0 <= n <= 0x1bb9
    ||| 0x1c40 <= n <= 0x1c49
    ||| 0x1c50 <= n <= 0x1c59
    ||| 0xa620 <= n <= 0xa629
    ||| 0xa8d0 <= n <= 0xa8d9
    ||| 0xa900 <= n <= 0xa909
    ||| 0xa9d0 <= n <= 0xa9d9
    ||| 0xa9f0 <= n <= 0xa9f9
    ||| 0xaa50 <= n <= 0xaa59
    ||| 0xabf0 <= n <= 0xabf9
    ||| 0xff10 <= n <= 0xff19
    ||| 0x104a0 <= n <= 0x104a9
    ||| 0x10d30 <= n <= 0x10d39
    ||| 0x10d40 <= n <= 0x10d49
    ||| 0x11066 <= n <= 0x1106f
    ||| 0x110f0 <= n <= 0x110f9
    ||| 0x11136 <= n <= 0x1113f
    ||| 0x111d0 <= n <= 0x111d9
    ||| 0x112f0 <= n <= 0x112f9
    ||| 0x11450 <= n <= 0x11459
    ||| 0x114d0 <= n <= 0x114d9
    ||| 0x11650 <= n <= 0x11659
    ||| 0x116c0 <= n <= 0x116c9
    ||| 0x116d0 <= n <= 0x116e3
    ||| 0x11730 <= n <= 0x11739
    ||| 0x118e0 <= n <= 0x118e9
    ||| 0x11950 <= n <= 0x11959
    ||| 0x11bf0 <= n <= 0x11bf9
    ||| 0x11c50 <= n <= 0x11c59
    ||| 0x11d50 <= n <= 0x11d59
    ||| 0x11da0 <= n <= 0x11da9
    ||| 0x11f50 <= n <= 0x11f59
    ||| 0x16130 <= n <= 0x16139
    ||| 0x16a60 <= n <= 0x16a69
    ||| 0x16ac0 <= n <= 0x16ac9
    ||| 0x16b50 <= n <= 0x16b59
    ||| 0x16d70 <= n <= 0x16d79
    ||| 0x1ccf0 <= n <= 0x1ccf9
    ||| 0x1d7ce <= n <= 0x1d7ff
    ||| 0x1e140 <= n <= 0x1e149
    ||| 0x1e2f0 <= n <= 0x1e2f9
    ||| 0x1e4f0 <= n <= 0x1e4f9
    ||| 0x1e5f1 <= n <= 0x1e5fa
    ||| 0x1e950 <= n <= 0x1e959
    ||| 0x1fbf0 <= n <= 0x1fbf9
}

fn digit(c: char) -> (r: bool)
    ensures
        r == is_digit(c),
{
    reveal(is_digit);
    let n: u32 = c as u32;
    (0x30 <= n && n <= 0x39) || (0x660 <= n && n <= 0x669) || (0x6f0 <= n && n <= 0x6f9) ||
        (0x7c0 <= n && n <= 0x7c9) || (0x966 <= n && n <= 0x96f) || (0x9e6 <= n && n <= 0x9ef) ||
        (0xa66 <= n && n <= 0xa6f) || (0xae6 <= n && n <= 0xaef) || (0xb66 <= n && n <= 0xb6f) ||
        (0xbe6 <= n && n <= 0xbef) || (0xc66 <= n && n <= 0xc6f) || (0xce6 <= n && n <= 0xcef) ||
        (0xd66 <= n && n <= 0xd6f) || (0xde6 <= n && n <= 0xdef) || (0xe50 <= n && n <= 0xe59) ||
        (0xed0 <= n && n <= 0xed9) || (0xf20 <= n && n <= 0xf29) ||
        (0x1040 <= n && n <= 0x1049) || (0x1090 <= n && n <= 0x1099) ||
        (0x17e0 <= n && n <= 0x17e9) || (0x1810 <= n && n <= 0x1819) ||
        (0x1946 <= n && n <= 0x194f) || (0x19d0 <= n && n <= 0x19d9) ||
        (0x1a80 <= n && n <= 0x1a89) || (0x1a90 <= n && n <= 0x1a99) ||
        (0x1b50 <= n && n <= 0x1b59) || (0x1bb0 <= n && n <= 0x1bb9) ||
        (0x1c40 <= n && n <= 0x1c49) || (0x1c50 <= n && n <= 0x1c59) ||
        (0xa620 <= n && n <= 0xa629) || (0xa8d0 <= n && n <= 0xa8d9) ||
        (0xa900 <= n && n <= 0xa909) || (0xa9d0 <= n && n <= 0xa9d9) ||
        (0xa9f0 <= n && n <= 0xa9f9) || (0xaa50 <= n && n <= 0xaa59) ||
        (0xabf0 <= n && n <= 0xabf9) || (0xff10 <= n && n <= 0xff19) ||
        (0x104a0 <= n && n <= 0x104a9) || (0x10d30 <= n && n <= 0x10d39) ||
        (0x10d40 <= n && n <= 0x10d49) || (0x11066 <= n && n <= 0x1106f) ||
        (0x110f0 <= n && n <= 0x110f9) || (0x11136 <= n && n <= 0x1113f) ||
        (0x111d0 <= n && n <= 0x111d9) || (0x112f0 <= n && n <= 0x112f9) ||
        (0x11450 <= n && n <= 0x11459) || (0x114d0 <= n && n <= 0x114d9) ||
        (0x11650 <= n && n <= 0x11659) || (0x116c0 <= n && n <= 0x116c9) ||
        (0x116d0 <= n && n <= 0x116e3) || (0x11730 <= n && n <= 0x11739) ||
        (0x118e0 <= n && n <= 0x118e9) || (0x11950 <= n && n <= 0x11959) ||
        (0x11bf0 <= n && n <= 0x11bf9) || (0x11c50 <= n && n <= 0x11c59) ||
        (0x11d50 <= n && n <= 0x11d59) || (0x11da0 <= n && n <= 0x11da9) ||
        (0x11f50 <= n && n <= 0x11f59) || (0x16130 <= n && n <= 0x16139) ||
        (0x16a60 <= n && n <= 0x16a69) || (0x16ac0 <= n && n <= 0x16ac9) ||
        (0x16b50 <= n && n <= 0x16b59) || (0x16d70 <= n && n <= 0x16d79) ||
        (0x1ccf0 <= n && n <= 0x1ccf9) || (0x1d7ce <= n && n <= 0x1d7ff) ||
        (0x1e140 <= n && n <= 0x1e149) || (0x1e2f0 <= n && n <= 0x1e2f9) ||
        (0x1e4f0 <= n && n <= 0x1e4f9) || (0x1e5f1 <= n && n <= 0x1e5fa) ||
        (0x1e950 <= n && n <= 0x1e959) || (0x1fbf0 <= n && n <= 0x1fbf9)
}

/// The characters that mark the parts of a clause are not digits.
proof fn lemma_marks_are_not_digits(c: char)
    ensures
        text::is_white_space(c) ==> !is_digit(c),
        c == '.' || c == ')' || c == '-' || c == '<' || c == '>' || c == '=' || c == '!' || c == 'p'
            || c == '(' ==> !is_digit(c),
        '0' <= c <= '9' ==> is_digit(c),
{
    reveal(is_digit);
}

pub open spec fn all_digits(s: Seq<char>) -> bool {
    forall|i: int| 0 <= i < s.len() ==> is_digit(#[trigger] s[i])
}

/// `k` digits, and then nothing, or a point and more digits.
pub open spec fn number_split(s: Seq<char>, k: int) -> bool {
    &&& 1 <= k <= s.len()
    &&& all_digits(s.take(k))
    &&& k == s.len() || (s[k] == '.' && k + 1 < s.len() && all_digits(s.skip(k + 1)))
}

/// Digits with an optional fraction.
pub open spec fn is_number(s: Seq<char>) -> bool {
    exists|k: int| number_split(s, k)
}

// ── the grammar of a clause ──

/// A percentile such as `p(99.9)`.
pub open spec fn is_percentile(s: Seq<char>) -> bool {
    &&& s.len() >= 3
    &&& s[0] == 'p'
    &&& s[1] == '('
    &&& s.last() == ')'
    &&& is_number(s.subrange(2, s.len() - 1))
}

/// A statistic that is a word.
pub open spec fn is_word(s: Seq<char>) -> bool {
    ||| s == seq!['a', 'v', 'g']
    ||| s == seq!['m', 'e', 'd']
    ||| s == seq!['m', 'i', 'n']
    ||| s == seq!['m', 'a', 'x']
    ||| s == seq!['c', 'o', 'u', 'n', 't']
    ||| s == seq!['s', 'u', 'm']
    ||| s == seq!['r', 'a', 't', 'e']
    ||| s == seq!['v', 'a', 'l', 'u', 'e']
}

#[verifier::opaque]
pub open spec fn is_stat(s: Seq<char>) -> bool {
    is_percentile(s) || is_word(s)
}

#[verifier::opaque]
pub open spec fn is_operator(s: Seq<char>) -> bool {
    ||| s == seq!['<', '=']
    ||| s == seq!['>', '=']
    ||| s == seq!['=', '=']
    ||| s == seq!['!', '=']
    ||| s == seq!['<']
    ||| s == seq!['>']
}

/// A number with an optional minus sign.
#[verifier::opaque]
pub open spec fn is_value(s: Seq<char>) -> bool {
    is_number(s) || (s.len() > 0 && s[0] == '-' && is_number(s.skip(1)))
}

/// The parts of a k6 clause.
pub struct Clause {
    pub stat: Seq<char>,
    pub operator: Seq<char>,
    pub value: Seq<char>,
}

/// `s` is the clause `k`, with the given white space around its parts.
pub open spec fn spaced(
    s: Seq<char>,
    k: Clause,
    a: Seq<char>,
    b: Seq<char>,
    c: Seq<char>,
    d: Seq<char>,
) -> bool {
    &&& text::all_space(a) && text::all_space(b) && text::all_space(c) && text::all_space(d)
    &&& is_stat(k.stat) && is_operator(k.operator) && is_value(k.value)
    &&& s == a + k.stat + b + k.operator + c + k.value + d
}

/// `s` is the clause `k`, with any white space around its parts.
pub open spec fn is_clause(s: Seq<char>, k: Clause) -> bool {
    exists|a: Seq<char>, b: Seq<char>, c: Seq<char>, d: Seq<char>| spaced(s, k, a, b, c, d)
}

/// The clause that `s` is, if it has the form of one.
pub open spec fn clause_of(s: Seq<char>) -> Option<Clause> {
    if exists|k: Clause| is_clause(s, k) {
        Some(choose|k: Clause| is_clause(s, k))
    } else {
        None
    }
}

// ── scanning ──

/// The first index, not below `i`, at which no digit stands.
spec fn digits_end(s: Seq<char>, i: int) -> int
    decreases s.len() - i,
{
    if 0 <= i < s.len() && is_digit(s[i]) {
        digits_end(s, i + 1)
    } else {
        i
    }
}

/// The first index, not below `i`, at which no white space stands.
spec fn space_end(s: Seq<char>, i: int) -> int
    decreases s.len() - i,
{
    if 0 <= i < s.len() && text::is_white_space(s[i]) {
        space_end(s, i + 1)
    } else {
        i
    }
}

spec fn number_end(s: Seq<char>, i: int) -> Option<int> {
    let k = digits_end(s, i);
    if k <= i {
        None
    } else if k < s.len() && s[k] == '.' && digits_end(s, k + 1) > k + 1 {
        Some(digits_end(s, k + 1))
    } else {
        Some(k)
    }
}

#[verifier::opaque]
spec fn value_end(s: Seq<char>, i: int) -> Option<int> {
    if i < s.len() && s[i] == '-' {
        number_end(s, i + 1)
    } else {
        number_end(s, i)
    }
}

spec fn word_end(s: Seq<char>, i: int) -> Option<int> {
    if text::occurs_at(s, seq!['a', 'v', 'g'], i) || text::occurs_at(s, seq!['m', 'e', 'd'], i)
        || text::occurs_at(s, seq!['m', 'i', 'n'], i) || text::occurs_at(s, seq!['m', 'a', 'x'], i)
        || text::occurs_at(s, seq!['s', 'u', 'm'], i) {
        Some(i + 3)
    } else if text::occurs_at(s, seq!['r', 'a', 't', 'e'], i) {
        Some(i + 4)
    } else if text::occurs_at(s, seq!['c', 'o', 'u', 'n', 't'], i) || text::occurs_at(
        s,
        seq!['v', 'a', 'l', 'u', 'e'],
        i,
    ) {
        Some(i + 5)
    } else {
        None
    }
}

#[verifier::opaque]
spec fn stat_end(s: Seq<char>, i: int) -> Option<int> {
    if text::occurs_at(s, seq!['p', '('], i) {
        match number_end(s, i + 2) {
            Some(k) => if k < s.len() && s[k] == ')' {
                Some(k + 1)
            } else {
                None
            },
            None => None,
        }
    } else {
        word_end(s, i)
    }
}

#[verifier::opaque]
spec fn operator_end(s: Seq<char>, i: int) -> Option<int> {
    if 0 <= i && i + 1 < s.len() && (s[i] == '<' || s[i] == '>' || s[i] == '=' || s[i] == '!')
        && s[i + 1] == '=' {
        Some(i + 2)
    } else if 0 <= i < s.len() && (s[i] == '<' || s[i] == '>') {
        Some(i + 1)
    } else {
        None
    }
}

/// The clause found by reading `s` from left to right.
spec fn scan(s: Seq<char>) -> Option<Clause> {
    let i0 = space_end(s, 0);
    match stat_end(s, i0) {
        Some(i1) => {
            let i2 = space_end(s, i1);
            match operator_end(s, i2) {
                Some(i3) => {
                    let i4 = space_end(s, i3);
                    match value_end(s, i4) {
                        Some(i5) => if space_end(s, i5) == s.len() {
                            Some(
                                Clause {
                                    stat: s.subrange(i0, i1),
                                    operator: s.subrange(i2, i3),
                                    value: s.subrange(i4, i5),
                                },
                            )
                        } else {
                            None
                        },
                        None => None,
                    }
                },
                None => None,
            }
        },
        None => None,
    }
}

proof fn lemma_digits_end(s: Seq<char>, i: int)
    requires
        0 <= i <= s.len(),
    ensures
        i <= digits_end(s, i) <= s.len(),
        forall|k: int| i <= k < digits_end(s, i) ==> is_digit(#[trigger] s[k]),
        digits_end(s, i) < s.len() ==> !is_digit(s[digits_end(s, i)]),
    decreases s.len() - i,
{
    if i < s.len() && is_digit(s[i]) {
        lemma_digits_end(s, i + 1);
    }
}

proof fn lemma_space_end(s: Seq<char>, i: int)
    requires
        0 <= i <= s.len(),
    ensures
        i <= space_end(s, i) <= s.len(),
        forall|k: int| i <= k < space_end(s, i) ==> text::is_white_space(#[trigger] s[k]),
        space_end(s, i) < s.len() ==> !text::is_white_space(s[space_end(s, i)]),
    decreases s.len() - i,
{
    if i < s.len() && text::is_white_space(s[i]) {
        lemma_space_end(s, i + 1);
    }
}

/// Digits up to `j` and none at `j`: the scan stops at `j`.
proof fn lemma_digits_stop(s: Seq<char>, i: int, j: int)
    requires
        0 <= i <= j <= s.len(),
        forall|k: int| i <= k < j ==> is_digit(#[trigger] s[k]),
        j < s.len() ==> !is_digit(s[j]),
    ensures
        digits_end(s, i) == j,
    decreases j - i,
{
    if i < j {
        assert(is_digit(s[i]));
        lemma_digits_stop(s, i + 1, j);
    }
}

proof fn lemma_space_stop(s: Seq<char>, i: int, j: int)
    requires
        0 <= i <= j <= s.len(),
        forall|k: int| i <= k < j ==> text::is_white_space(#[trigger] s[k]),
        j < s.len() ==> !text::is_white_space(s[j]),
    ensures
        space_end(s, i) == j,
    decreases j - i,
{
    if i < j {
        assert(text::is_white_space(s[i]));
        lemma_space_stop(s, i + 1, j);
    }
}

/// What the scan takes for a number is one.
proof fn lemma_number_end_sound(s: Seq<char>, i: int)
    requires
        0 <= i <= s.len(),
    ensures
        number_end(s, i) matches Some(j) ==> i < j <= s.len() && is_number(s.subrange(i, j)),
{
    lemma_digits_end(s, i);
    let k = digits_end(s, i);
    if k > i {
        let short = s.subrange(i, k);
        assert(short.take(k - i) =~= short);
        if k < s.len() && s[k] == '.' {
            lemma_digits_end(s, k + 1);
            let j = digits_end(s, k + 1);
            if j > k + 1 {
                let long = s.subrange(i, j);
                assert(long.take(k - i) =~= short);
                assert(long.skip(k - i + 1) =~= s.subrange(k + 1, j));
                assert(number_split(long, k - i));
            } else {
                assert(number_split(short, k - i));
            }
        } else {
            assert(number_split(short, k - i));
        }
    }
}

/// A number that no digit or point follows is found whole.
proof fn lemma_number_end_complete(s: Seq<char>, i: int, j: int)
    requires
        0 <= i <= j <= s.len(),
        is_number(s.subrange(i, j)),
        j < s.len() ==> !is_digit(s[j]) && s[j] != '.',
    ensures
        number_end(s, i) == Some(j),
        i < j,
{
    let n = s.subrange(i, j);
    let k = choose|k: int| number_split(n, k);
    assert forall|m: int| i <= m < i + k implies is_digit(#[trigger] s[m]) by {
        assert(n.take(k)[m - i] == s[m]);
    }
    lemma_marks_are_not_digits('.');
    if k < n.len() {
        assert(n[k] == s[i + k]);
    }
    lemma_digits_stop(s, i, i + k);
    if k < n.len() {
        assert forall|m: int| i + k + 1 <= m < j implies is_digit(#[trigger] s[m]) by {
            assert(n.skip(k + 1)[m - i - k - 1] == s[m]);
        }
        lemma_digits_stop(s, i + k + 1, j);
    }
}

proof fn lemma_value_end_sound(s: Seq<char>, i: int)
    requires
        0 <= i <= s.len(),
    ensures
        value_end(s, i) matches Some(j) ==> i < j <= s.len() && is_value(s.subrange(i, j)),
{
    reveal(value_end);
    reveal(is_value);
    if i < s.len() && s[i] == '-' {
        lemma_number_end_sound(s, i + 1);
        if let Some(j) = number_end(s, i + 1) {
            assert(s.subrange(i, j).skip(1) =~= s.subrange(i + 1, j));
        }
    } else {
        lemma_number_end_sound(s, i);
    }
}

proof fn lemma_value_end_complete(s: Seq<char>, i: int, j: int)
    requires
        0 <= i <= j <= s.len(),
        is_value(s.subrange(i, j)),
        j < s.len() ==> !is_digit(s[j]) && s[j] != '.',
    ensures
        value_end(s, i) == Some(j),
        i < j,
        is_digit(s[i]) || s[i] == '-',
{
    reveal(value_end);
    reveal(is_value);
    let v = s.subrange(i, j);
    lemma_marks_are_not_digits('-');
    if is_number(v) {
        lemma_number_end_complete(s, i, j);
        lemma_digits_end(s, i);
        assert(is_digit(s[i]));
    } else {
        assert(v[0] == s[i]);
        assert(v.skip(1) =~= s.subrange(i + 1, j));
        lemma_number_end_complete(s, i + 1, j);
    }
}

proof fn lemma_stat_end_sound(s: Seq<char>, i: int)
    requires
        0 <= i <= s.len(),
    ensures
        stat_end(s, i) matches Some(j) ==> i < j <= s.len() && is_stat(s.subrange(i, j)),
{
    reveal(stat_end);
    reveal(is_stat);
    let pq = seq!['p', '('];
    if text::occurs_at(s, pq, i) {
        assert(s.subrange(i, i + 2)[0] == s[i] && s.subrange(i, i + 2)[1] == s[i + 1]);
        assert(s[i] == pq[0] && s[i + 1] == pq[1]);
        lemma_number_end_sound(s, i + 2);
        if let Some(k) = number_end(s, i + 2) {
            if k < s.len() && s[k] == ')' {
                let w = s.subrange(i, k + 1);
                assert(w.subrange(2, w.len() - 1) =~= s.subrange(i + 2, k));
                assert(is_percentile(w));
            }
        }
    }
}

proof fn lemma_word_stat(s: Seq<char>, i: int, j: int)
    requires
        0 <= i <= j <= s.len(),
        is_word(s.subrange(i, j)),
    ensures
        stat_end(s, i) == Some(j),
        i < j,
        !text::is_white_space(s[i]),
{
    reveal(stat_end);
    let w = s.subrange(i, j);
    assert(text::occurs_at(s, w, i));
    assert(w[0] == s[i] && w[1] == s[i + 1] && w[2] == s[i + 2]);
    if text::occurs_at(s, seq!['p', '('], i) {
        assert(s.subrange(i, i + 2)[0] == s[i]);
        assert(seq!['p', '('][0] == 'p');
    }
    assert(forall|v: Seq<char>| #[trigger]
        text::occurs_at(s, v, i) && v.len() >= 2 ==> v[0] == s[i] && v[1] == s[i + 1]) by {
        assert forall|v: Seq<char>| #[trigger]
            text::occurs_at(s, v, i) && v.len() >= 2 implies v[0] == s[i] && v[1] == s[i + 1] by {
            assert(s.subrange(i, i + v.len())[0] == s[i]);
            assert(s.subrange(i, i + v.len())[1] == s[i + 1]);
        }
    }
}

proof fn lemma_stat_end_complete(s: Seq<char>, i: int, j: int)
    requires
        0 <= i <= j <= s.len(),
        is_stat(s.subrange(i, j)),
    ensures
        stat_end(s, i) == Some(j),
        i < j,
        !text::is_white_space(s[i]),
{
    reveal(stat_end);
    reveal(is_stat);
    let w = s.subrange(i, j);
    if is_percentile(w) {
        assert(w[0] == s[i] && w[1] == s[i + 1] && w[w.len() - 1] == s[j - 1]);
        assert(s.subrange(i, i + 2) =~= seq!['p', '(']);
        assert(text::occurs_at(s, seq!['p', '('], i));
        assert(w.subrange(2, w.len() - 1) =~= s.subrange(i + 2, j - 1));
        lemma_marks_are_not_digits(')');
        lemma_number_end_complete(s, i + 2, j - 1);
    } else {
        lemma_word_stat(s, i, j);
    }
}

proof fn lemma_operator_end_sound(s: Seq<char>, i: int)
    requires
        0 <= i <= s.len(),
    ensures
        operator_end(s, i) matches Some(j) ==> i < j <= s.len() && is_operator(s.subrange(i, j)),
{
    reveal(operator_end);
    reveal(is_operator);
    if let Some(j) = operator_end(s, i) {
        let o = s.subrange(i, j);
        if j == i + 2 {
            assert(o =~= seq![s[i], s[i + 1]]);
        } else {
            assert(o =~= seq![s[i]]);
        }
    }
}

proof fn lemma_operator_end_complete(s: Seq<char>, i: int, j: int)
    requires
        0 <= i <= j <= s.len(),
        is_operator(s.subrange(i, j)),
        j < s.len() ==> s[j] != '=',
    ensures
        operator_end(s, i) == Some(j),
        i < j,
        !text::is_white_space(s[i]),
{
    reveal(operator_end);
    reveal(is_operator);
    let o = s.subrange(i, j);
    assert(o.len() == 1 || o.len() == 2);
    assert(o[0] == s[i]);
    if o.len() == 2 {
        assert(o[1] == s[i + 1]);
    }
}

proof fn lemma_seven_parts(s: Seq<char>, i0: int, i1: int, i2: int, i3: int, i4: int, i5: int)
    requires
        0 <= i0 <= i1 <= i2 <= i3 <= i4 <= i5 <= s.len(),
    ensures
        s == s.subrange(0, i0) + s.subrange(i0, i1) + s.subrange(i1, i2) + s.subrange(i2, i3)
            + s.subrange(i3, i4) + s.subrange(i4, i5) + s.subrange(i5, s.len() as int),
{
    assert(s =~= s.subrange(0, i0) + s.subrange(i0, i1) + s.subrange(i1, i2) + s.subrange(i2, i3)
        + s.subrange(i3, i4) + s.subrange(i4, i5) + s.subrange(i5, s.len() as int));
}

/// The scan finds a clause only where there is one.
proof fn lemma_scan_sound(s: Seq<char>)
    ensures
        scan(s) matches Some(k) ==> is_clause(s, k),
{
    lemma_space_end(s, 0);
    let i0 = space_end(s, 0);
    lemma_stat_end_sound(s, i0);
    if let Some(i1) = stat_end(s, i0) {
        lemma_space_end(s, i1);
        let i2 = space_end(s, i1);
        lemma_operator_end_sound(s, i2);
        if let Some(i3) = operator_end(s, i2) {
            lemma_space_end(s, i3);
            let i4 = space_end(s, i3);
            lemma_value_end_sound(s, i4);
            if let Some(i5) = value_end(s, i4) {
                lemma_space_end(s, i5);
                if space_end(s, i5) == s.len() {
                    let k = scan(s)->0;
                    let a = s.subrange(0, i0);
                    let b = s.subrange(i1, i2);
                    let c = s.subrange(i3, i4);
                    let d = s.subrange(i5, s.len() as int);
                    lemma_seven_parts(s, i0, i1, i2, i3, i4, i5);
                    assert(spaced(s, k, a, b, c, d));
                }
            }
        }
    }
}

/// The scan finds a clause wherever there is one, and there is only that one.
proof fn lemma_scan_complete(s: Seq<char>, k: Clause)
    requires
        is_clause(s, k),
    ensures
        scan(s) == Some(k),
{
    let (a, b, c, d) = choose|a: Seq<char>, b: Seq<char>, c: Seq<char>, d: Seq<char>|
        spaced(s, k, a, b, c, d);
    let i0 = a.len() as int;
    let i1 = i0 + k.stat.len();
    let i2 = i1 + b.len();
    let i3 = i2 + k.operator.len();
    let i4 = i3 + c.len();
    let i5 = i4 + k.value.len();
    assert(i5 + d.len() == s.len());
    assert(s.subrange(0, i0) =~= a);
    assert(s.subrange(i0, i1) =~= k.stat);
    assert(s.subrange(i1, i2) =~= b);
    assert(s.subrange(i2, i3) =~= k.operator);
    assert(s.subrange(i3, i4) =~= c);
    assert(s.subrange(i4, i5) =~= k.value);
    assert(s.subrange(i5, s.len() as int) =~= d);
    lemma_marks_are_not_digits('-');
    if d.len() > 0 {
        assert(s[i5] == d[0]);
        lemma_marks_are_not_digits(d[0]);
    }
    lemma_value_end_complete(s, i4, i5);
    lemma_marks_are_not_digits(s[i4]);
    if c.len() > 0 {
        assert(s[i3] == c[0]);
    }
    lemma_marks_are_not_digits('=');
    lemma_operator_end_complete(s, i2, i3);
    lemma_stat_end_complete(s, i0, i1);
    assert forall|m: int| 0 <= m < i0 implies text::is_white_space(#[trigger] s[m]) by {
        assert(a[m] == s[m]);
    }
    lemma_space_stop(s, 0, i0);
    assert forall|m: int| i1 <= m < i2 implies text::is_white_space(#[trigger] s[m]) by {
        assert(b[m - i1] == s[m]);
    }
    lemma_space_stop(s, i1, i2);
    assert forall|m: int| i3 <= m < i4 implies text::is_white_space(#[trigger] s[m]) by {
        assert(c[m - i3] == s[m]);
    }
    lemma_space_stop(s, i3, i4);
    assert forall|m: int| i5 <= m < s.len() implies text::is_white_space(#[trigger] s[m]) by {
        assert(d[m - i5] == s[m]);
    }
    lemma_space_stop(s, i5, s.len() as int);
}

proof fn lemma_scan(s: Seq<char>)
    ensures
        scan(s) == clause_of(s),
{
    lemma_scan_sound(s);
    if exists|k: Clause| is_clause(s, k) {
        lemma_scan_complete(s, choose|k: Clause| is_clause(s, k));
    } else if scan(s) is Some {
        assert(is_clause(s, scan(s)->0));
    }
}

/// A text reads as a clause in one way at most.
pub proof fn law_clause_is_unique(s: Seq<char>, k: Clause, l: Clause)
    requires
        is_clause(s, k),
        is_clause(s, l),
    ensures
        k == l,
{
    lemma_scan_complete(s, k);
    lemma_scan_complete(s, l);
}

// ── the text of a number ──

/// Only ASCII digits, points and minus signs.
pub open spec fn is_plain(s: Seq<char>) -> bool {
    forall|i: int| 0 <= i < s.len() ==> ('0' <= #[trigger] s[i] <= '9' || s[i] == '.' || s[i] == '-')
}

/// The index of the first point, or the length where there is none.
pub open spec fn point(s: Seq<char>) -> int
    decreases s.len(),
{
    if s.len() == 0 || s[0] == '.' {
        0
    } else {
        1 + point(s.skip(1))
    }
}

pub open spec fn whole_part(s: Seq<char>) -> Seq<char> {
    s.take(point(s))
}

pub open spec fn fraction_part(s: Seq<char>) -> Seq<char> {
    if point(s) < s.len() {
        s.skip(point(s) + 1)
    } else {
        Seq::empty()
    }
}

/// `s` without the zeros it starts with, but with one digit at least.
pub open spec fn without_leading_zeros(s: Seq<char>) -> Seq<char>
    decreases s.len(),
{
    if s.len() > 1 && s[0] == '0' {
        without_leading_zeros(s.skip(1))
    } else {
        s
    }
}

/// `s` without the zeros it ends with.
pub open spec fn without_trailing_zeros(s: Seq<char>) -> Seq<char>
    decreases s.len(),
{
    if s.len() > 0 && s.last() == '0' {
        without_trailing_zeros(s.drop_last())
    } else {
        s
    }
}

pub open spec fn is_signed(s: Seq<char>) -> bool {
    s.len() > 0 && s[0] == '-'
}

pub open spec fn unsigned(s: Seq<char>) -> Seq<char> {
    if is_signed(s) {
        s.skip(1)
    } else {
        s
    }
}

/// How many digits a number has in its shortest form.
pub open spec fn digit_count(s: Seq<char>) -> nat {
    without_leading_zeros(whole_part(unsigned(s))).len() + without_trailing_zeros(
        fraction_part(unsigned(s)),
    ).len()
}

/// A number in its shortest form: no needless zeros, no point without a fraction.
pub open spec fn shortest_form(s: Seq<char>) -> Seq<char> {
    let whole = without_leading_zeros(whole_part(unsigned(s)));
    let fraction = without_trailing_zeros(fraction_part(unsigned(s)));
    let sign = if is_signed(s) {
        seq!['-']
    } else {
        Seq::empty()
    };
    if fraction.len() == 0 {
        sign + whole
    } else {
        sign + whole + seq!['.'] + fraction
    }
}

/// A decimal number of at most this many digits is the shortest one that rounds
/// to its binary64 value, so its shortest form is also what that value prints as.
pub const EXACT_DIGITS: usize = 15;

/// Whether binary64 may round a number to another one.
pub open spec fn is_wide(value: Seq<char>) -> bool {
    is_plain(value) && digit_count(value) > EXACT_DIGITS
}

/// How the value of a clause is written: `0` where it holds a digit outside
/// ASCII, which is not a number to the evaluator; as `rounded` has it, where
/// binary64 may round it; else in its shortest form.
pub open spec fn number_text_of(value: Seq<char>, rounded: Map<Seq<char>, String>) -> Seq<char> {
    if !is_plain(value) {
        seq!['0']
    } else if is_wide(value) && rounded.contains_key(value) {
        rounded[value]@
    } else {
        shortest_form(value)
    }
}

proof fn lemma_point(s: Seq<char>, k: int)
    requires
        0 <= k <= s.len(),
        forall|i: int| 0 <= i < k ==> #[trigger] s[i] != '.',
        k < s.len() ==> s[k] == '.',
    ensures
        point(s) == k,
    decreases k,
{
    if k > 0 {
        assert(s[0] != '.');
        assert forall|i: int| 0 <= i < k - 1 implies #[trigger] s.skip(1)[i] != '.' by {
            assert(s.skip(1)[i] == s[i + 1]);
        }
        lemma_point(s.skip(1), k - 1);
    }
}

/// A number of a clause in its shortest form, and whether binary64 may round it;
/// nothing where it holds a digit outside ASCII.
fn number_form(value: &str) -> (r: Option<(String, bool)>)
    ensures
        match r {
            Some((form, wide)) => {
                &&& is_plain(value@)
                &&& form@ == shortest_form(value@)
                &&& wide == is_wide(value@)
            },
            None => !is_plain(value@),
        },
{
    let v = text::chars_of(value);
    let mut i: usize = 0;
    while i < v.len()
        invariant
            i <= v@.len(),
            v@ == value@,
            forall|j: int|
                0 <= j < i ==> ('0' <= #[trigger] v@[j] <= '9' || v@[j] == '.' || v@[j] == '-'),
        decreases v@.len() - i,
    {
        let c = v[i];
        if !(('0' <= c && c <= '9') || c == '.' || c == '-') {
            proof {
                assert(!is_plain(value@)) by {
                    assert(value@[i as int] == c);
                }
            }
            return None;
        }
        i = i + 1;
    }
    assert(is_plain(value@));
    let signed = v.len() > 0 && v[0] == '-';
    let start: usize = if signed {
        1
    } else {
        0
    };
    let ghost body = unsigned(value@);
    assert(body =~= v@.skip(start as int));
    let mut p: usize = start;
    while p < v.len() && v[p] != '.'
        invariant
            start <= p <= v@.len(),
            body == v@.skip(start as int),
            start <= v@.len(),
            forall|j: int| 0 <= j < p - start ==> #[trigger] body[j] != '.',
        decreases v@.len() - p,
    {
        assert(body[p - start] == v@[p as int]);
        p = p + 1;
    }
    proof {
        lemma_point(body, p - start);
    }
    let mut from: usize = start;
    assert(v@.subrange(start as int, p as int) =~= whole_part(body));
    while p - from > 1 && v[from] == '0'
        invariant
            start <= from <= p <= v@.len(),
            without_leading_zeros(v@.subrange(from as int, p as int)) == without_leading_zeros(
                whole_part(body),
            ),
        decreases p - from,
    {
        let ghost w = v@.subrange(from as int, p as int);
        assert(w[0] == '0');
        assert(w.skip(1) =~= v@.subrange(from + 1, p as int));
        from = from + 1;
    }
    let ghost whole = v@.subrange(from as int, p as int);
    assert(whole == without_leading_zeros(whole_part(body))) by {
        if whole.len() > 1 {
            assert(whole[0] == v@[from as int]);
        }
    }
    let first: usize = if p < v.len() {
        p + 1
    } else {
        p
    };
    let mut to: usize = v.len();
    assert(v@.subrange(first as int, to as int) =~= fraction_part(body));
    while first < to && v[to - 1] == '0'
        invariant
            first <= to <= v@.len(),
            without_trailing_zeros(v@.subrange(first as int, to as int))
                == without_trailing_zeros(fraction_part(body)),
        decreases to - first,
    {
        let ghost f = v@.subrange(first as int, to as int);
        assert(f.last() == '0');
        assert(f.drop_last() =~= v@.subrange(first as int, to - 1));
        to = to - 1;
    }
    let ghost fraction = v@.subrange(first as int, to as int);
    assert(fraction == without_trailing_zeros(fraction_part(body))) by {
        if fraction.len() > 0 {
            assert(fraction.last() == v@[to - 1]);
        }
    }
    let wide = (p - from) > EXACT_DIGITS || (to - first) > EXACT_DIGITS - (p - from);
    let mut r = String::new();
    if signed {
        r.push('-');
    }
    r.append(text::text_between(&v, from, p).as_str());
    if first < to {
        r.push('.');
        r.append(text::text_between(&v, first, to).as_str());
    }
    assert(r@ =~= shortest_form(value@));
    Some((r, wide))
}

/// Writes a number as its clause wants it.
fn number_text(value: &str, rounded: &StringMap<String>) -> (r: String)
    ensures
        r@ == number_text_of(value@, rounded@),
{
    match number_form(value) {
        Some((form, wide)) => {
            if wide {
                if let Some(t) = rounded.get(value) {
                    return t.clone();
                }
            }
            form
        },
        None => {
            let mut zero = String::new();
            zero.push('0');
            assert(zero@ =~= seq!['0']);
            zero
        },
    }
}

/// The number that a text of digits stands for.
pub open spec fn digits_value(s: Seq<char>) -> int
    decreases s.len(),
{
    if s.len() == 0 {
        0
    } else {
        digits_value(s.drop_last()) * 10 + (s.last() as int - '0' as int)
    }
}

/// The number that `s` stands for, without its sign, times the power of ten that
/// makes it whole.
pub open spec fn scaled_value(s: Seq<char>) -> int {
    digits_value(whole_part(unsigned(s)) + fraction_part(unsigned(s)))
}

pub open spec fn places(s: Seq<char>) -> nat {
    fraction_part(unsigned(s)).len()
}

/// Two texts stand for the same number.
pub open spec fn same_number(a: Seq<char>, b: Seq<char>) -> bool {
    &&& is_signed(a) == is_signed(b)
    &&& scaled_value(a) * pow(10, places(b)) == scaled_value(b) * pow(10, places(a))
}

proof fn lemma_leading_zero(s: Seq<char>)
    requires
        s.len() > 0,
        s[0] == '0',
    ensures
        digits_value(s) == digits_value(s.skip(1)),
    decreases s.len(),
{
    reveal_with_fuel(digits_value, 2);
    if s.len() > 1 {
        lemma_leading_zero(s.drop_last());
        assert(s.drop_last().skip(1) =~= s.skip(1).drop_last());
    }
}

proof fn lemma_leading_zeros(w: Seq<char>, x: Seq<char>)
    ensures
        digits_value(without_leading_zeros(w) + x) == digits_value(w + x),
    decreases w.len(),
{
    if w.len() > 1 && w[0] == '0' {
        lemma_leading_zeros(w.skip(1), x);
        lemma_leading_zero(w + x);
        assert((w + x).skip(1) =~= w.skip(1) + x);
    }
}

proof fn lemma_trailing_zeros(w: Seq<char>, f: Seq<char>)
    ensures
        without_trailing_zeros(f).len() <= f.len(),
        digits_value(w + f) == digits_value(w + without_trailing_zeros(f)) * pow(
            10,
            (f.len() - without_trailing_zeros(f).len()) as nat,
        ),
    decreases f.len(),
{
    if f.len() > 0 && f.last() == '0' {
        let g = f.drop_last();
        lemma_trailing_zeros(w, g);
        assert((w + f).drop_last() =~= w + g);
        let k = (g.len() - without_trailing_zeros(g).len()) as nat;
        let d = digits_value(w + without_trailing_zeros(g));
        assert(pow(10, k + 1) == 10 * pow(10, k)) by {
            reveal(pow);
        }
        assert(d * pow(10, k) * 10 == d * (10 * pow(10, k))) by (nonlinear_arith);
    } else {
        assert(pow(10, 0) == 1) by {
            reveal(pow);
        }
    }
}

proof fn lemma_zeros_keep_digits(s: Seq<char>)
    requires
        all_digits(s),
    ensures
        all_digits(without_leading_zeros(s)),
        s.len() > 0 ==> without_leading_zeros(s).len() > 0,
    decreases s.len(),
{
    if s.len() > 1 && s[0] == '0' {
        assert(all_digits(s.skip(1))) by {
            assert forall|i: int| 0 <= i < s.skip(1).len() implies is_digit(
                #[trigger] s.skip(1)[i],
            ) by {
                assert(is_digit(s[i + 1]));
            }
        }
        lemma_zeros_keep_digits(s.skip(1));
    }
}

/// Writing a number in its shortest form does not change it.
pub proof fn law_shortest_form_keeps_the_number(s: Seq<char>)
    requires
        is_value(s),
    ensures
        same_number(s, shortest_form(s)),
{
    reveal(is_value);
    let body = unsigned(s);
    lemma_marks_are_not_digits('-');
    lemma_marks_are_not_digits('.');
    assert(is_number(body)) by {
        if is_number(s) {
            let k = choose|k: int| number_split(s, k);
            assert(is_digit(s.take(k)[0]));
            assert(body == s);
        }
    }
    let k = choose|k: int| number_split(body, k);
    assert forall|i: int| 0 <= i < k implies #[trigger] body[i] != '.' by {
        assert(is_digit(body.take(k)[i]));
    }
    lemma_point(body, k);
    let w = whole_part(body);
    let f = fraction_part(body);
    let w2 = without_leading_zeros(w);
    let f2 = without_trailing_zeros(f);
    lemma_zeros_keep_digits(w);
    assert(is_digit(w2[0]));
    lemma_trailing_zeros(w, f);
    lemma_leading_zeros(w, f2);
    let t = shortest_form(s);
    let rest = if f2.len() == 0 {
        w2
    } else {
        w2 + seq!['.'] + f2
    };
    assert(rest[0] == w2[0]);
    assert(unsigned(t) =~= rest);
    assert(is_signed(t) == is_signed(s));
    assert forall|i: int| 0 <= i < w2.len() implies #[trigger] rest[i] != '.' by {
        assert(is_digit(w2[i]));
    }
    lemma_point(rest, w2.len() as int);
    assert(whole_part(rest) =~= w2);
    assert(fraction_part(rest) =~= f2);
    let z = (f.len() - f2.len()) as nat;
    let d = digits_value(w2 + f2);
    lemma_pow_adds(10, z, f2.len());
    assert(pow(10, f.len()) == pow(10, z) * pow(10, f2.len()));
    assert((d * pow(10, z)) * pow(10, f2.len()) == d * (pow(10, z) * pow(10, f2.len())))
        by (nonlinear_arith);
}

// ── reading a clause ──

fn skip_digits(v: &Vec<char>, i: usize) -> (k: usize)
    requires
        i <= v@.len(),
    ensures
        k == digits_end(v@, i as int),
        i <= k <= v@.len(),
{
    let mut k: usize = i;
    while k < v.len() && digit(v[k])
        invariant
            i <= k <= v@.len(),
            digits_end(v@, i as int) == digits_end(v@, k as int),
        decreases v@.len() - k,
    {
        k = k + 1;
    }
    k
}

fn skip_space(v: &Vec<char>, i: usize) -> (k: usize)
    requires
        i <= v@.len(),
    ensures
        k == space_end(v@, i as int),
        i <= k <= v@.len(),
{
    let mut k: usize = i;
    while k < v.len() && text::white_space(v[k])
        invariant
            i <= k <= v@.len(),
            space_end(v@, i as int) == space_end(v@, k as int),
        decreases v@.len() - k,
    {
        k = k + 1;
    }
    k
}

fn skip_number(v: &Vec<char>, i: usize) -> (r: Option<usize>)
    requires
        i <= v@.len(),
    ensures
        match r {
            Some(k) => number_end(v@, i as int) == Some(k as int) && i < k <= v@.len(),
            None => number_end(v@, i as int) is None,
        },
{
    let k = skip_digits(v, i);
    if k == i {
        return None;
    }
    if k < v.len() && v[k] == '.' {
        let j = skip_digits(v, k + 1);
        if j > k + 1 {
            return Some(j);
        }
    }
    Some(k)
}

fn skip_value(v: &Vec<char>, i: usize) -> (r: Option<usize>)
    requires
        i <= v@.len(),
    ensures
        match r {
            Some(k) => value_end(v@, i as int) == Some(k as int) && i < k <= v@.len(),
            None => value_end(v@, i as int) is None,
        },
{
    reveal(value_end);
    if i < v.len() && v[i] == '-' {
        skip_number(v, i + 1)
    } else {
        skip_number(v, i)
    }
}

fn stands(v: &Vec<char>, i: usize, word: &str) -> (r: bool)
    requires
        i <= v@.len(),
    ensures
        r == text::occurs_at(v@, word@, i as int),
{
    let w = text::chars_of(word);
    text::occurs_here(v, &w, i)
}

fn skip_stat(v: &Vec<char>, i: usize) -> (r: Option<usize>)
    requires
        i <= v@.len(),
    ensures
        match r {
            Some(k) => stat_end(v@, i as int) == Some(k as int) && i < k <= v@.len(),
            None => stat_end(v@, i as int) is None,
        },
{
    reveal(stat_end);
    proof {
        assert(v@.len() == v.len());
        reveal_strlit("p(");
        reveal_strlit("avg");
        reveal_strlit("med");
        reveal_strlit("min");
        reveal_strlit("max");
        reveal_strlit("sum");
        reveal_strlit("rate");
        reveal_strlit("count");
        reveal_strlit("value");
        assert("p("@ =~= seq!['p', '(']);
        assert("avg"@ =~= seq!['a', 'v', 'g']);
        assert("med"@ =~= seq!['m', 'e', 'd']);
        assert("min"@ =~= seq!['m', 'i', 'n']);
        assert("max"@ =~= seq!['m', 'a', 'x']);
        assert("sum"@ =~= seq!['s', 'u', 'm']);
        assert("rate"@ =~= seq!['r', 'a', 't', 'e']);
        assert("count"@ =~= seq!['c', 'o', 'u', 'n', 't']);
        assert("value"@ =~= seq!['v', 'a', 'l', 'u', 'e']);
    }
    if stands(v, i, "p(") {
        return match skip_number(v, i + 2) {
            Some(k) => if k < v.len() && v[k] == ')' {
                Some(k + 1)
            } else {
                None
            },
            None => None,
        };
    }
    if stands(v, i, "avg") || stands(v, i, "med") || stands(v, i, "min") || stands(v, i, "max")
        || stands(v, i, "sum") {
        Some(i + 3)
    } else if stands(v, i, "rate") {
        Some(i + 4)
    } else if stands(v, i, "count") || stands(v, i, "value") {
        Some(i + 5)
    } else {
        None
    }
}

fn skip_operator(v: &Vec<char>, i: usize) -> (r: Option<usize>)
    requires
        i <= v@.len(),
    ensures
        match r {
            Some(k) => operator_end(v@, i as int) == Some(k as int) && i < k <= v@.len(),
            None => operator_end(v@, i as int) is None,
        },
{
    reveal(operator_end);
    if i >= v.len() {
        return None;
    }
    let c = v[i];
    if v.len() - i > 1 && (c == '<' || c == '>' || c == '=' || c == '!') && v[i + 1] == '=' {
        return Some(i + 2);
    }
    if c == '<' || c == '>' {
        return Some(i + 1);
    }
    None
}

/// The parts of a clause, as texts.
struct ClauseText {
    stat: String,
    operator: String,
    value: String,
}

fn read_clause(s: &str) -> (r: Option<ClauseText>)
    ensures
        match r {
            Some(c) => clause_of(s@) == Some(
                (Clause { stat: c.stat@, operator: c.operator@, value: c.value@ }),
            ),
            None => clause_of(s@) is None,
        },
{
    proof {
        lemma_scan(s@);
    }
    let v = text::chars_of(s);
    let i0 = skip_space(&v, 0);
    let i1 = match skip_stat(&v, i0) {
        Some(i) => i,
        None => return None,
    };
    let i2 = skip_space(&v, i1);
    let i3 = match skip_operator(&v, i2) {
        Some(i) => i,
        None => return None,
    };
    let i4 = skip_space(&v, i3);
    let i5 = match skip_value(&v, i4) {
        Some(i) => i,
        None => return None,
    };
    if skip_space(&v, i5) < v.len() {
        return None;
    }
    Some(
        ClauseText {
            stat: text::text_between(&v, i0, i1),
            operator: text::text_between(&v, i2, i3),
            value: text::text_between(&v, i4, i5),
        },
    )
}

// ── translation ──

/// The statistic as the evaluator names it: the median is the 50th percentile,
/// every other one keeps its name.
pub open spec fn stat_suffix(stat: Seq<char>) -> Seq<char> {
    if stat == "med"@ {
        ".p50"@
    } else {
        "."@ + stat
    }
}

/// A clause with its metric written out. What is not a k6 clause is kept.
pub open spec fn translated_clause(
    metric: Seq<char>,
    clause: Seq<char>,
    rounded: Map<Seq<char>, String>,
) -> Seq<char> {
    match clause_of(clause) {
        Some(k) => metric + stat_suffix(k.stat) + " "@ + k.operator + " "@ + number_text_of(
            k.value,
            rounded,
        ),
        None => text::trim(clause),
    }
}

/// The clauses of a conjunction, each translated.
pub open spec fn translated_group(
    metric: Seq<char>,
    group: Seq<char>,
    rounded: Map<Seq<char>, String>,
) -> Seq<char> {
    text::join(
        text::split(group, "&&"@).map_values(|c: Seq<char>| translated_clause(metric, c, rounded)),
        " && "@,
    )
}

/// A whole expression: conjunctions joined by `||`, each clause translated and
/// the operators kept.
pub open spec fn translated(
    metric: Seq<char>,
    expr: Seq<char>,
    rounded: Map<Seq<char>, String>,
) -> Seq<char> {
    text::join(
        text::split(expr, "||"@).map_values(|c: Seq<char>| translated_group(metric, c, rounded)),
        " || "@,
    )
}

/// Translates one clause. `rounded` tells how the numbers are written that
/// binary64 may round.
pub fn translate_k6_clause(metric: &str, expr: &str, rounded: &StringMap<String>) -> (r: String)
    ensures
        r@ == translated_clause(metric@, expr@, rounded@),
{
    match read_clause(expr) {
        Some(c) => {
            let mut r: String = metric.to_owned();
            if text::same_text(c.stat.as_str(), "med") {
                r.append(".p50");
            } else {
                r.append(".");
                r.append(c.stat.as_str());
            }
            r.append(" ");
            r.append(c.operator.as_str());
            r.append(" ");
            r.append(number_text(c.value.as_str(), rounded).as_str());
            assert(r@ =~= translated_clause(metric@, expr@, rounded@));
            r
        },
        None => text::trimmed(expr),
    }
}

fn translate_group(metric: &str, group: &str, rounded: &StringMap<String>) -> (r: String)
    ensures
        r@ == translated_group(metric@, group@, rounded@),
{
    proof {
        reveal_strlit("&&");
    }
    let clauses = text::split_on(group, "&&");
    let mut out: Vec<String> = Vec::new();
    let mut i: usize = 0;
    while i < clauses.len()
        invariant
            i <= clauses@.len(),
            out@.len() == i,
            forall|j: int|
                0 <= j < i ==> (#[trigger] out@[j])@ == translated_clause(
                    metric@,
                    clauses@[j]@,
                    rounded@,
                ),
        decreases clauses@.len() - i,
    {
        out.push(translate_k6_clause(metric, clauses[i].as_str(), rounded));
        i = i + 1;
    }
    proof {
        let pieces = text::split(group@, "&&"@);
        assert(text::views(clauses@) == pieces);
        assert forall|j: int| 0 <= j < pieces.len() implies #[trigger] text::views(out@)[j]
            == translated_clause(metric@, pieces[j], rounded@) by {
            assert(out@[j]@ == translated_clause(metric@, clauses@[j]@, rounded@));
            assert(text::views(clauses@)[j] == clauses@[j]@);
        }
        assert(text::views(out@) =~= pieces.map_values(
            |c: Seq<char>| translated_clause(metric@, c, rounded@),
        ));
    }
    text::joined(&out, " && ")
}

/// Translates a threshold expression: `p(95)<500` under `http_req_duration` is
/// `http_req_duration.p(95) < 500`. `&&` binds tighter than `||`.
pub fn translate_k6_expression(metric: &str, expr: &str, rounded: &StringMap<String>) -> (r: String)
    ensures
        r@ == translated(metric@, expr@, rounded@),
{
    proof {
        reveal_strlit("||");
    }
    let groups = text::split_on(expr, "||");
    let mut out: Vec<String> = Vec::new();
    let mut i: usize = 0;
    while i < groups.len()
        invariant
            i <= groups@.len(),
            out@.len() == i,
            forall|j: int|
                0 <= j < i ==> (#[trigger] out@[j])@ == translated_group(
                    metric@,
                    groups@[j]@,
                    rounded@,
                ),
        decreases groups@.len() - i,
    {
        out.push(translate_group(metric, groups[i].as_str(), rounded));
        i = i + 1;
    }
    proof {
        let pieces = text::split(expr@, "||"@);
        assert(text::views(groups@) == pieces);
        assert forall|j: int| 0 <= j < pieces.len() implies #[trigger] text::views(out@)[j]
            == translated_group(metric@, pieces[j], rounded@) by {
            assert(out@[j]@ == translated_group(metric@, groups@[j]@, rounded@));
            assert(text::views(groups@)[j] == groups@[j]@);
        }
        assert(text::views(out@) =~= pieces.map_values(
            |c: Seq<char>| translated_group(metric@, c, rounded@),
        ));
    }
    text::joined(&out, " || ")
}

// ── numbers that need rounding ──

/// The value of a clause, where binary64 may round it.
pub open spec fn clause_wide_number(clause: Seq<char>) -> Seq<Seq<char>> {
    match clause_of(clause) {
        Some(k) => if is_wide(k.value) {
            seq![k.value]
        } else {
            Seq::empty()
        },
        None => Seq::empty(),
    }
}

/// All the clauses of an expression, from left to right.
pub open spec fn clauses_of(expr: Seq<char>) -> Seq<Seq<char>> {
    text::split(expr, "||"@).map_values(|g: Seq<char>| text::split(g, "&&"@)).flatten()
}

/// The numbers of an expression that binary64 may round, from left to right.
pub open spec fn wide_numbers_of(expr: Seq<char>) -> Seq<Seq<char>> {
    clauses_of(expr).map_values(|c: Seq<char>| clause_wide_number(c)).flatten()
}

/// The numbers of an expression that binary64 may round, from left to right: the
/// ones whose rounded text [`translate_k6_expression`] has to be given.
pub fn wide_numbers(expr: &str) -> (r: Vec<String>)
    ensures
        text::views(r@) == wide_numbers_of(expr@),
{
    proof {
        reveal_strlit("||");
        reveal_strlit("&&");
    }
    let groups = text::split_on(expr, "||");
    let mut clauses: Vec<String> = Vec::new();
    let ghost nested = text::split(expr@, "||"@).map_values(
        |g: Seq<char>| text::split(g, "&&"@),
    );
    let mut i: usize = 0;
    assert(nested.take(0).flatten() =~= Seq::empty());
    assert(text::views(clauses@) =~= Seq::empty());
    while i < groups.len()
        invariant
            i <= groups@.len(),
            text::views(groups@) == text::split(expr@, "||"@),
            "&&"@.len() > 0,
            nested == text::split(expr@, "||"@).map_values(|g: Seq<char>| text::split(g, "&&"@)),
            text::views(clauses@) == nested.take(i as int).flatten(),
        decreases groups@.len() - i,
    {
        let mut part = text::split_on(groups[i].as_str(), "&&");
        let ghost before = clauses@;
        let ghost added = part@;
        clauses.append(&mut part);
        proof {
            assert(text::views(groups@)[i as int] == groups@[i as int]@);
            assert(nested.take(i + 1) =~= nested.take(i as int).push(text::views(added)));
            nested.take(i as int).lemma_flatten_push(text::views(added));
            assert(text::views(clauses@) =~= text::views(before) + text::views(added));
        }
        i = i + 1;
    }
    assert(nested.take(groups@.len() as int) =~= nested);
    assert(text::views(clauses@) == clauses_of(expr@));
    let ghost wanted = clauses_of(expr@).map_values(|c: Seq<char>| clause_wide_number(c));
    let mut r: Vec<String> = Vec::new();
    let mut k: usize = 0;
    assert(wanted.take(0).flatten() =~= Seq::empty());
    assert(text::views(r@) =~= Seq::empty());
    while k < clauses.len()
        invariant
            k <= clauses@.len(),
            text::views(clauses@) == clauses_of(expr@),
            wanted == clauses_of(expr@).map_values(|c: Seq<char>| clause_wide_number(c)),
            text::views(r@) == wanted.take(k as int).flatten(),
        decreases clauses@.len() - k,
    {
        let ghost before = r@;
        if let Some(c) = read_clause(clauses[k].as_str()) {
            if let Some((_, true)) = number_form(c.value.as_str()) {
                r.push(c.value);
            }
        }
        proof {
            assert(text::views(clauses@)[k as int] == clauses@[k as int]@);
            let number = clause_wide_number(clauses@[k as int]@);
            assert(wanted.take(k + 1) =~= wanted.take(k as int).push(number));
            wanted.take(k as int).lemma_flatten_push(number);
            assert(text::views(r@) =~= text::views(before) + number);
        }
        k = k + 1;
    }
    assert(wanted.take(clauses@.len() as int) =~= wanted);
    r
}

/// What one of the lists holds, all of them hold.
pub proof fn lemma_flatten_contains(s: Seq<Seq<Seq<char>>>, i: int, x: Seq<char>)
    requires
        0 <= i < s.len(),
        s[i].contains(x),
    ensures
        s.flatten().contains(x),
    decreases s.len(),
{
    let rest = s.drop_last();
    assert(s =~= rest.push(s.last()));
    rest.lemma_flatten_push(s.last());
    if i == s.len() - 1 {
        let k = choose|k: int| 0 <= k < s[i].len() && s[i][k] == x;
        assert((rest.flatten() + s.last())[rest.flatten().len() + k] == x);
    } else {
        lemma_flatten_contains(rest, i, x);
        let k = choose|k: int| 0 <= k < rest.flatten().len() && rest.flatten()[k] == x;
        assert((rest.flatten() + s.last())[k] == x);
    }
}

/// The translation of an expression depends on the rounded texts of the numbers
/// that [`wide_numbers`] lists, and on no others.
pub proof fn law_only_wide_numbers_are_rounded(
    metric: Seq<char>,
    expr: Seq<char>,
    a: Map<Seq<char>, String>,
    b: Map<Seq<char>, String>,
)
    requires
        forall|v: Seq<char>| #[trigger]
            wide_numbers_of(expr).contains(v) ==> a.contains_key(v) == b.contains_key(v) && (
            a.contains_key(v) ==> a[v]@ == b[v]@),
    ensures
        translated(metric, expr, a) == translated(metric, expr, b),
{
    let groups = text::split(expr, "||"@);
    let nested = groups.map_values(|g: Seq<char>| text::split(g, "&&"@));
    let wanted = clauses_of(expr).map_values(|c: Seq<char>| clause_wide_number(c));
    assert forall|i: int| 0 <= i < groups.len() implies translated_group(
        metric,
        #[trigger] groups[i],
        a,
    ) == translated_group(metric, groups[i], b) by {
        let clauses = text::split(groups[i], "&&"@);
        assert(nested[i] == clauses);
        assert forall|j: int| 0 <= j < clauses.len() implies translated_clause(
            metric,
            #[trigger] clauses[j],
            a,
        ) == translated_clause(metric, clauses[j], b) by {
            assert(nested[i].contains(clauses[j]));
            lemma_flatten_contains(nested, i, clauses[j]);
            assert(clauses_of(expr).contains(clauses[j]));
            let k = choose|k: int|
                0 <= k < clauses_of(expr).len() && clauses_of(expr)[k] == clauses[j];
            if let Some(c) = clause_of(clauses[j]) {
                if is_wide(c.value) {
                    assert(wanted[k] == seq![c.value]);
                    assert(seq![c.value][0] == c.value);
                    assert(wanted[k].contains(c.value));
                    lemma_flatten_contains(wanted, k, c.value);
                    assert(wide_numbers_of(expr).contains(c.value));
                }
                assert(number_text_of(c.value, a) == number_text_of(c.value, b));
            }
        }
        assert(clauses.map_values(|c: Seq<char>| translated_clause(metric, c, a))
            =~= clauses.map_values(|c: Seq<char>| translated_clause(metric, c, b)));
    }
    assert(groups.map_values(|c: Seq<char>| translated_group(metric, c, a)) =~= groups.map_values(
        |c: Seq<char>| translated_group(metric, c, b),
    ));
}

/// An expression without `&&` and `||` is translated as one clause.
pub proof fn law_simple_expression_is_one_clause(
    metric: Seq<char>,
    expr: Seq<char>,
    rounded: Map<Seq<char>, String>,
)
    requires
        !text::contains(expr, "&&"@),
        !text::contains(expr, "||"@),
    ensures
        translated(metric, expr, rounded) == translated_clause(metric, expr, rounded),
{
    reveal_strlit("&&");
    reveal_strlit("||");
    text::lemma_split_whole(expr, "&&"@);
    text::lemma_split_whole(expr, "||"@);
    assert(seq![expr].map_values(|c: Seq<char>| translated_clause(metric, c, rounded)) =~= seq![
        translated_clause(metric, expr, rounded),
    ]);
    assert(seq![expr].map_values(|c: Seq<char>| translated_group(metric, c, rounded)) =~= seq![
        translated_group(metric, expr, rounded),
    ]);
}

/// An expression that is no k6 clause, such as one that names its metric, passes
/// through without the white space around it.
pub proof fn law_other_expression_passes_through(
    metric: Seq<char>,
    expr: Seq<char>,
    rounded: Map<Seq<char>, String>,
)
    requires
        !text::contains(expr, "&&"@),
        !text::contains(expr, "||"@),
        forall|k: Clause| !is_clause(expr, k),
    ensures
        translated(metric, expr, rounded) == text::trim(expr),
{
    law_simple_expression_is_one_clause(metric, expr, rounded);
}

/// A percentile keeps the number it was written with.
pub proof fn law_percentile_is_kept(
    metric: Seq<char>,
    expr: Seq<char>,
    k: Clause,
    rounded: Map<Seq<char>, String>,
)
    requires
        is_clause(expr, k),
        is_percentile(k.stat),
    ensures
        translated_clause(metric, expr, rounded) == metric + "."@ + k.stat + " "@ + k.operator + " "@
            + number_text_of(k.value, rounded),
{
    reveal_strlit("med");
    assert("med"@[0] == 'm');
    law_clause_is_unique(expr, k, clause_of(expr)->0);
    assert(metric + ("."@ + k.stat) =~= metric + "."@ + k.stat);
}

// ── a second translation ──

/// In a number, a digit follows each point.
proof fn lemma_number_point(n: Seq<char>, j: int)
    requires
        is_number(n),
        0 <= j < n.len(),
        n[j] == '.',
    ensures
        j + 1 < n.len(),
        is_digit(n[j + 1]),
{
    let k = choose|k: int| number_split(n, k);
    lemma_marks_are_not_digits('.');
    if j < k {
        assert(is_digit(n.take(k)[j]));
    } else if j > k {
        assert(is_digit(n.skip(k + 1)[j - k - 1]));
    } else {
        assert(is_digit(n.skip(k + 1)[0]));
    }
}

proof fn lemma_stat_point(stat: Seq<char>, j: int)
    requires
        is_stat(stat),
        0 <= j < stat.len(),
        stat[j] == '.',
    ensures
        j + 1 < stat.len(),
        is_digit(stat[j + 1]),
{
    reveal(is_stat);
    if is_percentile(stat) {
        let n = stat.subrange(2, stat.len() - 1);
        assert(n[j - 2] == '.');
        lemma_number_point(n, j - 2);
    }
}

proof fn lemma_value_point(value: Seq<char>, j: int)
    requires
        is_value(value),
        0 <= j < value.len(),
        value[j] == '.',
    ensures
        j + 1 < value.len(),
        is_digit(value[j + 1]),
{
    reveal(is_value);
    if is_number(value) {
        lemma_number_point(value, j);
    } else {
        lemma_number_point(value.skip(1), j - 1);
    }
}

/// In a clause, a digit follows each point.
proof fn lemma_clause_point(s: Seq<char>, k: Clause, j: int)
    requires
        is_clause(s, k),
        0 <= j < s.len(),
        s[j] == '.',
    ensures
        j + 1 < s.len(),
        is_digit(s[j + 1]),
{
    let (a, b, c, d) = choose|a: Seq<char>, b: Seq<char>, c: Seq<char>, d: Seq<char>|
        spaced(s, k, a, b, c, d);
    let i0 = a.len() as int;
    let i1 = i0 + k.stat.len();
    let i2 = i1 + b.len();
    let i3 = i2 + k.operator.len();
    let i4 = i3 + c.len();
    let i5 = i4 + k.value.len();
    assert(s.len() == i5 + d.len());
    assert(!text::is_white_space('.'));
    if j < i0 {
        assert(s[j] == a[j]);
    } else if j < i1 {
        assert(s[j] == k.stat[j - i0]);
        lemma_stat_point(k.stat, j - i0);
        assert(s[j + 1] == k.stat[j + 1 - i0]);
    } else if j < i2 {
        assert(s[j] == b[j - i1]);
    } else if j < i3 {
        reveal(is_operator);
        assert(s[j] == k.operator[j - i2]);
    } else if j < i4 {
        assert(s[j] == c[j - i3]);
    } else if j < i5 {
        assert(s[j] == k.value[j - i4]);
        lemma_value_point(k.value, j - i4);
        assert(s[j + 1] == k.value[j + 1 - i4]);
    } else {
        assert(s[j] == d[j - i5]);
    }
}

/// No white space and no sign that joins clauses.
pub open spec fn is_one_word(s: Seq<char>) -> bool {
    s.len() > 0 && forall|i: int|
        0 <= i < s.len() ==> !text::is_white_space(#[trigger] s[i]) && s[i] != '&' && s[i] != '|'
}

proof fn lemma_zeros_are_plain(s: Seq<char>)
    requires
        is_plain(s),
    ensures
        is_plain(without_leading_zeros(s)),
        is_plain(without_trailing_zeros(s)),
    decreases s.len(),
{
    if s.len() > 1 && s[0] == '0' {
        assert(is_plain(s.skip(1))) by {
            assert forall|i: int| 0 <= i < s.skip(1).len() implies ('0' <= #[trigger] s.skip(1)[i]
                <= '9' || s.skip(1)[i] == '.' || s.skip(1)[i] == '-') by {
                assert(s.skip(1)[i] == s[i + 1]);
            }
        }
        lemma_zeros_are_plain(s.skip(1));
    }
    if s.len() > 0 && s.last() == '0' {
        assert(is_plain(s.drop_last())) by {
            assert forall|i: int| 0 <= i < s.drop_last().len() implies ('0'
                <= #[trigger] s.drop_last()[i] <= '9' || s.drop_last()[i] == '.'
                || s.drop_last()[i] == '-') by {
                assert(s.drop_last()[i] == s[i]);
            }
        }
        lemma_zeros_are_plain(s.drop_last());
    }
}

/// The number of a clause is written as one word.
proof fn lemma_number_is_one_word(value: Seq<char>, rounded: Map<Seq<char>, String>)
    requires
        is_value(value),
        forall|v: Seq<char>| #[trigger] rounded.contains_key(v) ==> is_one_word(rounded[v]@),
    ensures
        is_one_word(number_text_of(value, rounded)),
{
    if is_plain(value) && !(is_wide(value) && rounded.contains_key(value)) {
        reveal(is_value);
        let body = unsigned(value);
        lemma_marks_are_not_digits('-');
        lemma_marks_are_not_digits('.');
        assert(is_number(body)) by {
            if is_number(value) {
                let k = choose|k: int| number_split(value, k);
                assert(is_digit(value.take(k)[0]));
                assert(body == value);
            }
        }
        let k = choose|k: int| number_split(body, k);
        assert forall|i: int| 0 <= i < k implies #[trigger] body[i] != '.' by {
            assert(is_digit(body.take(k)[i]));
        }
        lemma_point(body, k);
        let w = whole_part(body);
        let f = fraction_part(body);
        assert(is_plain(w)) by {
            assert forall|i: int| 0 <= i < w.len() implies ('0' <= #[trigger] w[i] <= '9' || w[i]
                == '.' || w[i] == '-') by {
                assert(w[i] == body[i]);
                assert(body[i] == value[if is_signed(value) {
                    i + 1
                } else {
                    i
                }]);
            }
        }
        assert(is_plain(f)) by {
            assert forall|i: int| 0 <= i < f.len() implies ('0' <= #[trigger] f[i] <= '9' || f[i]
                == '.' || f[i] == '-') by {
                assert(f[i] == body[k + 1 + i]);
                assert(body[k + 1 + i] == value[if is_signed(value) {
                    k + 2 + i
                } else {
                    k + 1 + i
                }]);
            }
        }
        lemma_zeros_keep_digits(w);
        lemma_zeros_are_plain(w);
        lemma_zeros_are_plain(f);
        let t = shortest_form(value);
        let w2 = without_leading_zeros(w);
        let f2 = without_trailing_zeros(f);
        let n = if is_signed(value) {
            1int
        } else {
            0int
        };
        assert(w2.len() > 0);
        assert forall|i: int| 0 <= i < t.len() implies !text::is_white_space(#[trigger] t[i])
            && t[i] != '&' && t[i] != '|' by {
            if i < n {
            } else if i < n + w2.len() {
                assert(t[i] == w2[i - n]);
            } else if i > n + w2.len() {
                assert(t[i] == f2[i - n - w2.len() - 1]);
            }
        }
    }
}

proof fn lemma_stat_letters(stat: Seq<char>)
    requires
        is_stat(stat),
    ensures
        stat.len() > 0,
        !is_digit(stat[0]),
        !text::is_white_space(stat[0]),
        forall|i: int| 0 <= i < stat.len() ==> #[trigger] stat[i] != '&' && stat[i] != '|',
{
    reveal(is_stat);
    reveal(is_digit);
    if is_percentile(stat) {
        let n = stat.subrange(2, stat.len() - 1);
        let k = choose|k: int| number_split(n, k);
        assert forall|i: int| 0 <= i < stat.len() implies #[trigger] stat[i] != '&' && stat[i]
            != '|' by {
            if 2 <= i < stat.len() - 1 {
                assert(stat[i] == n[i - 2]);
                if i - 2 < k {
                    assert(is_digit(n.take(k)[i - 2]));
                } else if i - 2 > k {
                    assert(is_digit(n.skip(k + 1)[i - 2 - k - 1]));
                }
            } else if i == stat.len() - 1 {
                assert(stat[i] == stat.last());
            }
        }
    }
}

proof fn lemma_value_end(value: Seq<char>)
    requires
        is_value(value),
    ensures
        value.len() > 0,
        !text::is_white_space(value.last()),
{
    reveal(is_value);
    let n = if is_number(value) {
        value
    } else {
        value.skip(1)
    };
    let k = choose|k: int| number_split(n, k);
    lemma_marks_are_not_digits(value.last());
    assert(n.last() == value.last());
    if k == n.len() {
        assert(is_digit(n.take(k)[k - 1]));
    } else {
        assert(is_digit(n.skip(k + 1)[n.len() - k - 2]));
    }
}

/// White space around a text does not make a clause of it.
proof fn lemma_clause_between(s: Seq<char>, lead: Seq<char>, tail: Seq<char>)
    requires
        text::all_space(lead),
        text::all_space(tail),
        clause_of(s) is None,
    ensures
        clause_of(lead + text::trim(s) + tail) is None,
{
    let t = text::trim(s);
    let padded = lead + t + tail;
    if exists|k: Clause| is_clause(padded, k) {
        let k = choose|k: Clause| is_clause(padded, k);
        let (a, b, c, d) = choose|a: Seq<char>, b: Seq<char>, c: Seq<char>, d: Seq<char>|
            spaced(padded, k, a, b, c, d);
        let core = k.stat + b + k.operator + c + k.value;
        lemma_stat_letters(k.stat);
        lemma_value_end(k.value);
        assert(core[0] == k.stat[0]);
        assert(core.last() == k.value.last());
        assert(padded =~= a + core + d);
        text::lemma_trim_padded(a, core, d);
        let (from, to) = text::lemma_trim(s);
        text::lemma_trim_padded(lead, t, tail);
        assert(t == core);
        let before = s.take(from);
        let after = s.skip(to);
        assert(s =~= before + t + after);
        assert(s =~= before + k.stat + b + k.operator + c + k.value + after);
        assert(spaced(s, k, before, b, c, after));
        assert(is_clause(s, k));
    }
}

/// What a clause is translated to, and what is known of it.
spec fn is_kept(metric: Seq<char>, t: Seq<char>, rounded: Map<Seq<char>, String>) -> bool {
    &&& !text::contains(t, seq!['&', '&'])
    &&& !text::contains(t, seq!['|', '|'])
    &&& forall|lead: Seq<char>, tail: Seq<char>|
        text::all_space(lead) && text::all_space(tail) ==> #[trigger] translated_clause(
            metric,
            lead + t + tail,
            rounded,
        ) == t
}

proof fn lemma_clause_is_kept(metric: Seq<char>, clause: Seq<char>, rounded: Map<Seq<char>, String>)
    requires
        metric.len() > 0 ==> !text::is_white_space(metric[0]),
        !text::contains(metric, seq!['&', '&']),
        !text::contains(metric, seq!['|', '|']),
        !text::contains(clause, seq!['&', '&']),
        !text::contains(clause, seq!['|', '|']),
        forall|v: Seq<char>| #[trigger] rounded.contains_key(v) ==> is_one_word(rounded[v]@),
    ensures
        is_kept(metric, translated_clause(metric, clause, rounded), rounded),
{
    let t = translated_clause(metric, clause, rounded);
    match clause_of(clause) {
        Some(k) => {
            assert(is_clause(clause, k));
            let num = number_text_of(k.value, rounded);
            let suffix = stat_suffix(k.stat);
            let middle = suffix + " "@ + k.operator + " "@;
            reveal_strlit(".");
            reveal_strlit(".p50");
            reveal_strlit(" ");
            lemma_stat_letters(k.stat);
            lemma_number_is_one_word(k.value, rounded);
            assert(t =~= metric + middle + num);
            assert(suffix.len() > 1 && suffix[0] == '.');
            assert(!is_digit(suffix[1])) by {
                lemma_marks_are_not_digits('p');
                if k.stat != "med"@ {
                    assert(suffix[1] == k.stat[0]);
                }
            }
            assert forall|i: int| 0 <= i < middle.len() implies #[trigger] middle[i] != '&'
                && middle[i] != '|' by {
                reveal(is_operator);
                let n = suffix.len() as int;
                if i < n {
                    assert(middle[i] == suffix[i]);
                    if k.stat != "med"@ && i > 0 {
                        assert(suffix[i] == k.stat[i - 1]);
                    }
                } else if n < i <= n + k.operator.len() {
                    assert(middle[i] == k.operator[i - n - 1]);
                }
            }
            lemma_pair_in_front(metric, middle, num, '&');
            lemma_pair_in_front(metric, middle, num, '|');
            assert(t.last() == num.last() && num.last() == num[num.len() - 1]);
            assert(!text::is_white_space('.'));
            assert(t[0] == if metric.len() > 0 {
                metric[0]
            } else {
                '.'
            });
            assert forall|lead: Seq<char>, tail: Seq<char>|
                text::all_space(lead) && text::all_space(
                    tail,
                ) implies #[trigger] translated_clause(metric, lead + t + tail, rounded) == t by {
                let padded = lead + t + tail;
                let j = (lead.len() + metric.len()) as int;
                assert(padded[j] == suffix[0]);
                assert(padded[j + 1] == suffix[1]);
                if exists|l: Clause| is_clause(padded, l) {
                    let l = choose|l: Clause| is_clause(padded, l);
                    lemma_clause_point(padded, l, j);
                }
                text::lemma_trim_padded(lead, t, tail);
            }
        },
        None => {
            let (from, to) = text::lemma_trim(clause);
            text::lemma_part_holds(clause, from, to, seq!['&', '&']);
            text::lemma_part_holds(clause, from, to, seq!['|', '|']);
            assert forall|lead: Seq<char>, tail: Seq<char>|
                text::all_space(lead) && text::all_space(
                    tail,
                ) implies #[trigger] translated_clause(metric, lead + t + tail, rounded) == t by {
                lemma_clause_between(clause, lead, tail);
                text::lemma_trim_padded(lead, t, tail);
            }
        },
    }
}

/// Two equal signs side by side stand in the first of three texts, where the
/// others do not hold the sign.
proof fn lemma_pair_in_front(x: Seq<char>, y: Seq<char>, z: Seq<char>, c: char)
    requires
        !text::contains(x, seq![c, c]),
        y.len() > 0,
        forall|i: int| 0 <= i < y.len() ==> #[trigger] y[i] != c,
        forall|i: int| 0 <= i < z.len() ==> #[trigger] z[i] != c,
    ensures
        !text::contains(x + y + z, seq![c, c]),
{
    let s = x + y + z;
    assert forall|i: int| !text::occurs_at(s, seq![c, c], i) by {
        if text::occurs_at(s, seq![c, c], i) {
            text::lemma_pair(s, c, i);
            if i + 1 < x.len() {
                assert(x[i] == s[i] && x[i + 1] == s[i + 1]);
                text::lemma_pair(x, c, i);
                assert(text::occurs_at(x, seq![c, c], i));
            } else if i + 1 < x.len() + y.len() {
                assert(s[i + 1] == y[i + 1 - x.len()]);
            } else {
                assert(s[i + 1] == z[i + 1 - x.len() - y.len()]);
            }
        }
    }
}

/// A conjunction that was translated is kept, with white space around it.
proof fn lemma_group_is_kept(
    metric: Seq<char>,
    group: Seq<char>,
    rounded: Map<Seq<char>, String>,
    lead: Seq<char>,
    tail: Seq<char>,
)
    requires
        metric.len() > 0 ==> !text::is_white_space(metric[0]),
        !text::contains(metric, seq!['&', '&']),
        !text::contains(metric, seq!['|', '|']),
        !text::contains(group, seq!['|', '|']),
        forall|v: Seq<char>| #[trigger] rounded.contains_key(v) ==> is_one_word(rounded[v]@),
        text::all_space(lead),
        text::all_space(tail),
    ensures
        !text::contains(translated_group(metric, group, rounded), seq!['|', '|']),
        translated_group(metric, lead + translated_group(metric, group, rounded) + tail, rounded)
            == translated_group(metric, group, rounded),
{
    reveal_strlit("&&");
    reveal_strlit(" && ");
    assert("&&"@ =~= seq!['&', '&']);
    assert(" && "@ =~= seq![' ', '&', '&', ' ']);
    let clauses = text::split(group, "&&"@);
    text::lemma_split_pieces(group, "&&"@, seq!['|', '|']);
    let texts = clauses.map_values(|c: Seq<char>| translated_clause(metric, c, rounded));
    assert forall|i: int| 0 <= i < texts.len() implies is_kept(
        metric,
        #[trigger] texts[i],
        rounded,
    ) by {
        lemma_clause_is_kept(metric, clauses[i], rounded);
    }
    text::lemma_joined_holds_no_pair(texts, '&', '|');
    text::lemma_split_joined(texts, '&', lead, tail);
    let whole = lead + text::join(texts, " && "@) + tail;
    let pieces = text::split(whole, "&&"@);
    assert forall|i: int| 0 <= i < texts.len() implies translated_clause(
        metric,
        #[trigger] pieces[i],
        rounded,
    ) == texts[i] by {
        let x = text::before_piece(lead, i);
        let y = text::after_piece(tail, i, texts.len());
        assert(text::all_space(x) && text::all_space(y));
        assert(is_kept(metric, texts[i], rounded));
        assert(pieces[i] == x + texts[i] + y);
    }
    assert(pieces.map_values(|c: Seq<char>| translated_clause(metric, c, rounded)) =~= texts);
}

/// An expression that carries its metric passes through: translating what was
/// translated changes nothing. The metric begins with no white space and holds
/// neither `&&` nor `||`, and a number is rounded to one word.
pub proof fn law_translation_is_kept(
    metric: Seq<char>,
    expr: Seq<char>,
    rounded: Map<Seq<char>, String>,
)
    requires
        metric.len() > 0 ==> !text::is_white_space(metric[0]),
        !text::contains(metric, "&&"@),
        !text::contains(metric, "||"@),
        forall|v: Seq<char>| #[trigger] rounded.contains_key(v) ==> is_one_word(rounded[v]@),
    ensures
        translated(metric, translated(metric, expr, rounded), rounded) == translated(
            metric,
            expr,
            rounded,
        ),
{
    reveal_strlit("&&");
    reveal_strlit("||");
    reveal_strlit(" || ");
    assert("&&"@ =~= seq!['&', '&']);
    assert("||"@ =~= seq!['|', '|']);
    assert(" || "@ =~= seq![' ', '|', '|', ' ']);
    let groups = text::split(expr, "||"@);
    text::lemma_split_pieces(expr, "||"@, "||"@);
    let texts = groups.map_values(|g: Seq<char>| translated_group(metric, g, rounded));
    let none = Seq::<char>::empty();
    assert forall|i: int| 0 <= i < texts.len() implies !text::contains(
        #[trigger] texts[i],
        seq!['|', '|'],
    ) by {
        lemma_group_is_kept(metric, groups[i], rounded, none, none);
    }
    text::lemma_split_joined(texts, '|', none, none);
    let whole = text::join(texts, " || "@);
    assert(none + whole + none =~= whole);
    let pieces = text::split(whole, "||"@);
    assert forall|i: int| 0 <= i < texts.len() implies translated_group(
        metric,
        #[trigger] pieces[i],
        rounded,
    ) == texts[i] by {
        let x = text::before_piece(none, i);
        let y = text::after_piece(none, i, texts.len());
        assert(pieces[i] == x + texts[i] + y);
        lemma_group_is_kept(metric, groups[i], rounded, x, y);
    }
    assert(pieces.map_values(|g: Seq<char>| translated_group(metric, g, rounded)) =~= texts);
}

// ── the grammar in words ──

/// A character is one of the ten digits that begin with a zero.
pub open spec fn is_digit_of(c: char, zero: int) -> bool {
    zero <= c as int <= zero + 9
}

/// Digits come in tens: a character is one exactly where it is one of the ten of a
/// script, known by its zero.
#[verifier::rlimit(40)]
pub proof fn law_digits_come_in_tens(c: char)
    ensures
        is_digit(c) <==> ({
            ||| is_digit_of(c, 0x30)
            ||| is_digit_of(c, 0x660)
            ||| is_digit_of(c, 0x6f0)
            ||| is_digit_of(c, 0x7c0)
            ||| is_digit_of(c, 0x966)
            ||| is_digit_of(c, 0x9e6)
            ||| is_digit_of(c, 0xa66)
            ||| is_digit_of(c, 0xae6)
            ||| is_digit_of(c, 0xb66)
            ||| is_digit_of(c, 0xbe6)
            ||| is_digit_of(c, 0xc66)
            ||| is_digit_of(c, 0xce6)
            ||| is_digit_of(c, 0xd66)
            ||| is_digit_of(c, 0xde6)
            ||| is_digit_of(c, 0xe50)
            ||| is_digit_of(c, 0xed0)
            ||| is_digit_of(c, 0xf20)
            ||| is_digit_of(c, 0x1040)
            ||| is_digit_of(c, 0x1090)
            ||| is_digit_of(c, 0x17e0)
            ||| is_digit_of(c, 0x1810)
            ||| is_digit_of(c, 0x1946)
            ||| is_digit_of(c, 0x19d0)
            ||| is_digit_of(c, 0x1a80)
            ||| is_digit_of(c, 0x1a90)
            ||| is_digit_of(c, 0x1b50)
            ||| is_digit_of(c, 0x1bb0)
            ||| is_digit_of(c, 0x1c40)
            ||| is_digit_of(c, 0x1c50)
            ||| is_digit_of(c, 0xa620)
            ||| is_digit_of(c, 0xa8d0)
            ||| is_digit_of(c, 0xa900)
            ||| is_digit_of(c, 0xa9d0)
            ||| is_digit_of(c, 0xa9f0)
            ||| is_digit_of(c, 0xaa50)
            ||| is_digit_of(c, 0xabf0)
            ||| is_digit_of(c, 0xff10)
            ||| is_digit_of(c, 0x104a0)
            ||| is_digit_of(c, 0x10d30)
            ||| is_digit_of(c, 0x10d40)
            ||| is_digit_of(c, 0x11066)
            ||| is_digit_of(c, 0x110f0)
            ||| is_digit_of(c, 0x11136)
            ||| is_digit_of(c, 0x111d0)
            ||| is_digit_of(c, 0x112f0)
            ||| is_digit_of(c, 0x11450)
            ||| is_digit_of(c, 0x114d0)
            ||| is_digit_of(c, 0x11650)
            ||| is_digit_of(c, 0x116c0)
            ||| is_digit_of(c, 0x116d0)
            ||| is_digit_of(c, 0x116da)
            ||| is_digit_of(c, 0x11730)
            ||| is_digit_of(c, 0x118e0)
            ||| is_digit_of(c, 0x11950)
            ||| is_digit_of(c, 0x11bf0)
            ||| is_digit_of(c, 0x11c50)
            ||| is_digit_of(c, 0x11d50)
            ||| is_digit_of(c, 0x11da0)
            ||| is_digit_of(c, 0x11f50)
            ||| is_digit_of(c, 0x16130)
            ||| is_digit_of(c, 0x16a60)
            ||| is_digit_of(c, 0x16ac0)
            ||| is_digit_of(c, 0x16b50)
            ||| is_digit_of(c, 0x16d70)
            ||| is_digit_of(c, 0x1ccf0)
            ||| is_digit_of(c, 0x1d7ce)
            ||| is_digit_of(c, 0x1d7d8)
            ||| is_digit_of(c, 0x1d7e2)
            ||| is_digit_of(c, 0x1d7ec)
            ||| is_digit_of(c, 0x1d7f6)
            ||| is_digit_of(c, 0x1e140)
            ||| is_digit_of(c, 0x1e2f0)
            ||| is_digit_of(c, 0x1e4f0)
            ||| is_digit_of(c, 0x1e5f1)
            ||| is_digit_of(c, 0x1e950)
            ||| is_digit_of(c, 0x1fbf0)
        }),
{
    reveal(is_digit);
}

/// A number is digits, or digits, a point and digits, and nothing else.
pub proof fn law_forms_of_a_number(s: Seq<char>, whole: Seq<char>, fraction: Seq<char>)
    ensures
        whole.len() > 0 && all_digits(whole) ==> is_number(whole),
        whole.len() > 0 && all_digits(whole) && fraction.len() > 0 && all_digits(fraction)
            ==> is_number(whole + seq!['.'] + fraction),
        is_number(s) ==> s.len() > 0 && is_digit(s[0]) && is_digit(s.last()),
        is_number(s) ==> forall|i: int|
            0 <= i < s.len() ==> is_digit(#[trigger] s[i]) || s[i] == '.',
        is_number(s) ==> forall|i: int, j: int|
            0 <= i < j < s.len() ==> !(#[trigger] s[i] == '.' && #[trigger] s[j] == '.'),
{
    if whole.len() > 0 && all_digits(whole) {
        assert(whole.take(whole.len() as int) =~= whole);
        assert(number_split(whole, whole.len() as int));
        if fraction.len() > 0 && all_digits(fraction) {
            let n = whole + seq!['.'] + fraction;
            let k = whole.len() as int;
            assert(n.take(k) =~= whole);
            assert(n.skip(k + 1) =~= fraction);
            assert(number_split(n, k));
        }
    }
    if is_number(s) {
        let k = choose|k: int| number_split(s, k);
        lemma_marks_are_not_digits('.');
        assert forall|i: int| 0 <= i < k implies is_digit(#[trigger] s[i]) by {
            assert(s.take(k)[i] == s[i]);
        }
        assert forall|i: int| k < i < s.len() implies is_digit(#[trigger] s[i]) by {
            assert(s.skip(k + 1)[i - k - 1] == s[i]);
        }
    }
}

/// The statistics that are words are these eight; any other is a percentile.
pub proof fn law_statistics(s: Seq<char>)
    ensures
        is_stat(s) <==> is_percentile(s) || s == "avg"@ || s == "med"@ || s == "min"@ || s
            == "max"@ || s == "count"@ || s == "sum"@ || s == "rate"@ || s == "value"@,
{
    reveal(is_stat);
    reveal_strlit("avg");
    reveal_strlit("med");
    reveal_strlit("min");
    reveal_strlit("max");
    reveal_strlit("count");
    reveal_strlit("sum");
    reveal_strlit("rate");
    reveal_strlit("value");
    assert("avg"@ =~= seq!['a', 'v', 'g']);
    assert("med"@ =~= seq!['m', 'e', 'd']);
    assert("min"@ =~= seq!['m', 'i', 'n']);
    assert("max"@ =~= seq!['m', 'a', 'x']);
    assert("count"@ =~= seq!['c', 'o', 'u', 'n', 't']);
    assert("sum"@ =~= seq!['s', 'u', 'm']);
    assert("rate"@ =~= seq!['r', 'a', 't', 'e']);
    assert("value"@ =~= seq!['v', 'a', 'l', 'u', 'e']);
}

/// A percentile is `p`, and a number in brackets.
pub proof fn law_percentiles(n: Seq<char>, s: Seq<char>)
    ensures
        is_number(n) ==> is_percentile("p("@ + n + ")"@),
        is_percentile(s) ==> is_number(s.subrange(2, s.len() - 1)) && s == "p("@ + s.subrange(
            2,
            s.len() - 1,
        ) + ")"@,
{
    reveal_strlit("p(");
    reveal_strlit(")");
    assert(("p("@ + n + ")"@).subrange(2, ("p("@ + n + ")"@).len() - 1) =~= n);
    if is_percentile(s) {
        assert(s =~= "p("@ + s.subrange(2, s.len() - 1) + ")"@);
    }
}

/// The operators are these six.
pub proof fn law_operators(s: Seq<char>)
    ensures
        is_operator(s) <==> s == "<"@ || s == "<="@ || s == ">"@ || s == ">="@ || s == "=="@ || s
            == "!="@,
{
    reveal(is_operator);
    reveal_strlit("<");
    reveal_strlit("<=");
    reveal_strlit(">");
    reveal_strlit(">=");
    reveal_strlit("==");
    reveal_strlit("!=");
    assert("<"@ =~= seq!['<']);
    assert("<="@ =~= seq!['<', '=']);
    assert(">"@ =~= seq!['>']);
    assert(">="@ =~= seq!['>', '=']);
    assert("=="@ =~= seq!['=', '=']);
    assert("!="@ =~= seq!['!', '=']);
}

/// The value of a clause is a number, with or without a minus sign before it.
pub proof fn law_values(n: Seq<char>, s: Seq<char>)
    ensures
        is_number(n) ==> is_value(n) && is_value(seq!['-'] + n),
        is_value(s) ==> is_number(s) || (s.len() > 0 && s == seq!['-'] + s.skip(1) && is_number(
            s.skip(1),
        )),
{
    reveal(is_value);
    assert((seq!['-'] + n).skip(1) =~= n);
    if is_value(s) && !is_number(s) {
        assert(s =~= seq!['-'] + s.skip(1));
    }
}

/// A clause, with any white space around its parts, is translated into the metric,
/// a point and the statistic, the operator and the number, with one space between
/// them. The median is written as the 50th percentile, and any other statistic as it
/// stands.
pub proof fn law_clauses_name_their_metric(
    metric: Seq<char>,
    k: Clause,
    a: Seq<char>,
    b: Seq<char>,
    c: Seq<char>,
    d: Seq<char>,
    rounded: Map<Seq<char>, String>,
)
    requires
        text::all_space(a) && text::all_space(b) && text::all_space(c) && text::all_space(d),
        is_stat(k.stat),
        is_operator(k.operator),
        is_value(k.value),
    ensures
        k.stat == "med"@ ==> translated_clause(
            metric,
            a + k.stat + b + k.operator + c + k.value + d,
            rounded,
        ) == metric + ".p50"@ + " "@ + k.operator + " "@ + number_text_of(k.value, rounded),
        k.stat != "med"@ ==> translated_clause(
            metric,
            a + k.stat + b + k.operator + c + k.value + d,
            rounded,
        ) == metric + ("."@ + k.stat) + " "@ + k.operator + " "@ + number_text_of(k.value, rounded),
{
    let s = a + k.stat + b + k.operator + c + k.value + d;
    assert(spaced(s, k, a, b, c, d));
    assert(is_clause(s, k));
    law_clause_is_unique(s, k, clause_of(s)->0);
}

proof fn lemma_found_at(s: Seq<char>, c: char, from: int, n: int)
    requires
        0 <= from <= n,
        n + 1 < s.len(),
        s[n] == c,
        s[n + 1] == c,
        forall|i: int| from <= i < n ==> #[trigger] s[i] != c,
    ensures
        text::find_from(s, seq![c, c], from) == Some(n),
    decreases n - from,
{
    text::lemma_pair(s, c, from);
    if from < n {
        assert(s[from] != c);
        lemma_found_at(s, c, from + 1, n);
    }
}

proof fn lemma_first_piece(first: Seq<char>, rest: Seq<char>, c: char)
    requires
        !first.contains(c),
    ensures
        text::split(first + seq![c, c] + rest, seq![c, c]) == seq![first] + text::split(
            rest,
            seq![c, c],
        ),
{
    let sep = seq![c, c];
    let s = first + sep + rest;
    let n = first.len() as int;
    assert(s[n] == c && s[n + 1] == c);
    assert forall|i: int| 0 <= i < n implies #[trigger] s[i] != c by {
        assert(s[i] == first[i]);
    }
    lemma_found_at(s, c, 0, n);
    assert(sep.len() == 2);
    let head = s.subrange(0, n);
    let tail = s.skip(n + 2);
    assert(head =~= first);
    assert(tail =~= rest);
    assert(text::split(s, sep) == seq![head] + text::split(tail, sep));
}

/// The clauses of a conjunction are translated one by one, in their order, with
/// ` && ` between them.
pub proof fn law_conjunctions_are_translated(
    metric: Seq<char>,
    clause: Seq<char>,
    rest: Seq<char>,
    rounded: Map<Seq<char>, String>,
)
    requires
        !clause.contains('&'),
    ensures
        translated_group(metric, clause, rounded) == translated_clause(metric, clause, rounded),
        translated_group(metric, clause + "&&"@ + rest, rounded) == translated_clause(
            metric,
            clause,
            rounded,
        ) + " && "@ + translated_group(metric, rest, rounded),
{
    reveal_strlit("&&");
    let sep = seq!['&', '&'];
    assert("&&"@ =~= sep);
    lemma_first_piece(clause, rest, '&');
    let f = |c: Seq<char>| translated_clause(metric, c, rounded);
    text::lemma_split_pieces(rest, sep, sep);
    let tail = text::split(rest, sep);
    let all = (seq![clause] + tail).map_values(f);
    assert(all.drop_first() =~= tail.map_values(f));
    text::lemma_join_first(all, " && "@);
    lemma_no_pair_without_the_character(clause, '&');
    text::lemma_split_whole(clause, sep);
    assert(seq![clause].map_values(f) =~= seq![f(clause)]);
}

proof fn lemma_no_pair_without_the_character(s: Seq<char>, c: char)
    requires
        !s.contains(c),
    ensures
        !text::contains(s, seq![c, c]),
{
    if text::contains(s, seq![c, c]) {
        let i = choose|i: int| text::occurs_at(s, seq![c, c], i);
        text::lemma_pair(s, c, i);
        assert(s[i] == c);
    }
}

/// The conjunctions of an expression are translated one by one, in their order, with
/// ` || ` between them.
pub proof fn law_alternatives_are_translated(
    metric: Seq<char>,
    group: Seq<char>,
    rest: Seq<char>,
    rounded: Map<Seq<char>, String>,
)
    requires
        !group.contains('|'),
    ensures
        translated(metric, group, rounded) == translated_group(metric, group, rounded),
        translated(metric, group + "||"@ + rest, rounded) == translated_group(
            metric,
            group,
            rounded,
        ) + " || "@ + translated(metric, rest, rounded),
{
    reveal_strlit("||");
    let sep = seq!['|', '|'];
    assert("||"@ =~= sep);
    lemma_first_piece(group, rest, '|');
    let f = |c: Seq<char>| translated_group(metric, c, rounded);
    text::lemma_split_pieces(rest, sep, sep);
    let tail = text::split(rest, sep);
    let all = (seq![group] + tail).map_values(f);
    assert(all.drop_first() =~= tail.map_values(f));
    text::lemma_join_first(all, " || "@);
    lemma_no_pair_without_the_character(group, '|');
    text::lemma_split_whole(group, sep);
    assert(seq![group].map_values(f) =~= seq![f(group)]);
}

/// The clauses of an expression are listed from left to right.
pub proof fn law_clauses_are_listed(group: Seq<char>, rest: Seq<char>)
    requires
        !group.contains('|'),
    ensures
        clauses_of(group) == text::split(group, "&&"@),
        clauses_of(group + "||"@ + rest) == text::split(group, "&&"@) + clauses_of(rest),
{
    reveal_strlit("||");
    let sep = seq!['|', '|'];
    assert("||"@ =~= sep);
    lemma_first_piece(group, rest, '|');
    let f = |g: Seq<char>| text::split(g, "&&"@);
    let tail = text::split(rest, sep);
    let all = (seq![group] + tail).map_values(f);
    assert(all.drop_first() =~= tail.map_values(f));
    assert(all.first() == f(group));
    lemma_no_pair_without_the_character(group, '|');
    text::lemma_split_whole(group, sep);
    let one = seq![group].map_values(f);
    assert(one.drop_first() =~= Seq::empty());
    assert(one.drop_first().flatten() =~= Seq::empty());
    assert(one.flatten() =~= f(group));
}

/// The numbers that may be rounded are those of the clauses, from left to right: one
/// for each clause with a wide number, and none for any other.
pub proof fn law_wide_numbers_are_listed(clauses: Seq<Seq<char>>, clause: Seq<char>)
    ensures
        (seq![clause] + clauses).map_values(|c: Seq<char>| clause_wide_number(c)).flatten()
            == clause_wide_number(clause) + clauses.map_values(
            |c: Seq<char>| clause_wide_number(c),
        ).flatten(),
        forall|k: Clause| #[trigger]
            is_clause(clause, k) && is_wide(k.value) ==> clause_wide_number(clause) == seq![k.value],
        forall|k: Clause| #[trigger]
            is_clause(clause, k) && !is_wide(k.value) ==> clause_wide_number(clause).len() == 0,
        (forall|k: Clause| !is_clause(clause, k)) ==> clause_wide_number(clause).len() == 0,
{
    let f = |c: Seq<char>| clause_wide_number(c);
    let all = (seq![clause] + clauses).map_values(f);
    assert(all.drop_first() =~= clauses.map_values(f));
    assert(all.first() == f(clause));
    assert forall|k: Clause| #[trigger] is_clause(clause, k) implies clause_of(clause) == Some(k) by {
        law_clause_is_unique(clause, k, clause_of(clause)->0);
    }
}

proof fn lemma_zeros_shorten(s: Seq<char>)
    ensures
        without_leading_zeros(s).len() <= s.len(),
        without_trailing_zeros(s).len() <= s.len(),
    decreases s.len(),
{
    if s.len() > 0 {
        lemma_zeros_shorten(s.skip(1));
        lemma_zeros_shorten(s.drop_last());
    }
}

proof fn lemma_point_within(s: Seq<char>)
    ensures
        0 <= point(s) <= s.len(),
    decreases s.len(),
{
    if s.len() > 0 && s[0] != '.' {
        lemma_point_within(s.skip(1));
    }
}

/// A value of at most fifteen characters is written in its shortest form, which
/// stands for the same number: nothing rounds it.
pub proof fn law_short_numbers_are_kept(value: Seq<char>, rounded: Map<Seq<char>, String>)
    requires
        is_plain(value),
        value.len() <= 15,
    ensures
        !is_wide(value),
        number_text_of(value, rounded) == shortest_form(value),
{
    let u = unsigned(value);
    lemma_point_within(u);
    lemma_zeros_shorten(whole_part(u));
    lemma_zeros_shorten(fraction_part(u));
    assert(whole_part(u).len() + fraction_part(u).len() <= value.len());
}

/// A whole number of sixteen digits or more, without a zero before them, may be
/// rounded, and is written as it is rounded.
pub proof fn law_long_numbers_are_rounded(value: Seq<char>, rounded: Map<Seq<char>, String>)
    requires
        value.len() >= 16,
        forall|i: int| 0 <= i < value.len() ==> '0' <= #[trigger] value[i] <= '9',
        value[0] != '0',
        rounded.contains_key(value),
    ensures
        is_wide(value),
        number_text_of(value, rounded) == rounded[value]@,
{
    lemma_point(value, value.len() as int);
    assert(value.take(value.len() as int) =~= value);
    assert(value[0] != '-');
    assert(unsigned(value) == value);
    assert(whole_part(value) == value);
    assert(without_leading_zeros(value) == value);
}

/// A value with a digit outside ASCII is written as zero.
pub proof fn law_other_digits_are_zero(
    value: Seq<char>,
    i: int,
    rounded: Map<Seq<char>, String>,
)
    requires
        0 <= i < value.len(),
        !('0' <= value[i] <= '9'),
        value[i] != '.',
        value[i] != '-',
    ensures
        number_text_of(value, rounded) == "0"@,
{
    reveal_strlit("0");
    assert("0"@ =~= seq!['0']);
}

} // verus!
