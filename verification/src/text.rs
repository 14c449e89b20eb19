//! Text as a sequence of characters.
//!
//! The specifications are written over `Seq<char>`, the view of `str` and
//! `String`. The executable functions work on a `Vec<char>` taken once from the
//! text, so that each of them reads its input a bounded number of times.

use vstd::prelude::*;
use vstd::string::*;

verus! {

/// `String::push` appends one character to the text.
pub assume_specification[ String::push ](s: &mut String, c: char)
    ensures
        final(s)@ == old(s)@.push(c),
;

/// The characters of `s`, in order.
pub fn chars_of(s: &str) -> (r: Vec<char>)
    ensures
        r@ == s@,
{
    let mut r: Vec<char> = Vec::new();
    for c in it: s.chars()
        invariant
            it.seq() == s@,
            r@ == s@.take(it.index() as int),
    {
        r.push(c);
        assert(s@.take(it.index() as int).push(c) =~= s@.take(it.index() + 1));
    }
    assert(s@.take(s@.len() as int) =~= s@);
    r
}

/// The text made of the characters of `v` from `from` up to, not including, `to`.
pub fn text_between(v: &Vec<char>, from: usize, to: usize) -> (r: String)
    requires
        from <= to <= v@.len(),
    ensures
        r@ == v@.subrange(from as int, to as int),
{
    let mut r: String = String::new();
    let mut i: usize = from;
    while i < to
        invariant
            from <= i <= to <= v@.len(),
            r@ == v@.subrange(from as int, i as int),
        decreases to - i,
    {
        r.push(v[i]);
        assert(v@.subrange(from as int, i as int).push(v@[i as int]) =~= v@.subrange(
            from as int,
            i + 1,
        ));
        i += 1;
    }
    r
}

/// Whether two texts hold the same characters.
pub fn same_text(a: &str, b: &str) -> (r: bool)
    ensures
        r == (a@ == b@),
{
    let x = a.as_bytes();
    let y = b.as_bytes();
    proof {
        vstd::utf8::encode_utf8_decode_utf8(a@);
        vstd::utf8::encode_utf8_decode_utf8(b@);
    }
    if x.len() != y.len() {
        return false;
    }
    let mut i: usize = 0;
    while i < x.len()
        invariant
            i <= x@.len(),
            x@.len() == y@.len(),
            x@ == a.spec_bytes(),
            y@ == b.spec_bytes(),
            forall|k: int| 0 <= k < i ==> x@[k] == y@[k],
        decreases x@.len() - i,
    {
        if x[i] != y[i] {
            return false;
        }
        i += 1;
    }
    assert(x@ =~= y@);
    true
}

/// Whether a text has no characters.
pub fn empty(s: &str) -> (r: bool)
    ensures
        r == (s@.len() == 0),
{
    proof {
        reveal_strlit("");
        if s@.len() == 0 {
            assert(s@ =~= ""@);
        }
    }
    same_text(s, "")
}

// ── white space ──

/// The characters of the Unicode property White_Space.
pub open spec fn is_white_space(c: char) -> bool {
    let n = c as u32;
    ||| 0x09 <= n <= 0x0d
    ||| n == 0x20
    ||| n == 0x85
    ||| n == 0xa0
    ||| n == 0x1680
    ||| 0x2000 <= n <= 0x200a
    ||| n == 0x2028
    ||| n == 0x2029
    ||| n == 0x202f
    ||| n == 0x205f
    ||| n == 0x3000
}

pub fn white_space(c: char) -> (r: bool)
    ensures
        r == is_white_space(c),
{
    let n: u32 = c as u32;
    (0x09 <= n && n <= 0x0d) || n == 0x20 || n == 0x85 || n == 0xa0 || n == 0x1680 || (0x2000 <= n
        && n <= 0x200a) || n == 0x2028 || n == 0x2029 || n == 0x202f || n == 0x205f || n == 0x3000
}

/// Nothing but white space.
pub open spec fn all_space(s: Seq<char>) -> bool {
    forall|i: int| 0 <= i < s.len() ==> is_white_space(#[trigger] s[i])
}

/// `s` without its leading white space.
pub open spec fn trim_start(s: Seq<char>) -> Seq<char>
    decreases s.len(),
{
    if s.len() > 0 && is_white_space(s[0]) {
        trim_start(s.drop_first())
    } else {
        s
    }
}

/// `s` without its trailing white space.
pub open spec fn trim_end(s: Seq<char>) -> Seq<char>
    decreases s.len(),
{
    if s.len() > 0 && is_white_space(s.last()) {
        trim_end(s.drop_last())
    } else {
        s
    }
}

/// `s` without white space at either end.
pub open spec fn trim(s: Seq<char>) -> Seq<char> {
    trim_end(trim_start(s))
}

/// Trimming keeps what stands between the first and the last character that is
/// not white space.
pub proof fn lemma_trim(s: Seq<char>) -> (r: (int, int))
    ensures
        0 <= r.0 <= r.1 <= s.len(),
        trim(s) == s.subrange(r.0, r.1),
        all_space(s.take(r.0)),
        all_space(s.skip(r.1)),
        r.0 < r.1 ==> !is_white_space(s[r.0]) && !is_white_space(s[r.1 - 1]),
    decreases s.len(),
{
    if s.len() > 0 && is_white_space(s[0]) {
        let rest = s.drop_first();
        let (a, b) = lemma_trim(rest);
        assert(s.subrange(a + 1, b + 1) =~= rest.subrange(a, b));
        assert forall|i: int| 0 <= i < a + 1 implies is_white_space(
            #[trigger] s.take(a + 1)[i],
        ) by {
            if i > 0 {
                assert(rest.take(a)[i - 1] == s[i]);
            }
        }
        assert(s.skip(b + 1) =~= rest.skip(b));
        (a + 1, b + 1)
    } else {
        let b = lemma_trim_end(s);
        (0, b)
    }
}

proof fn lemma_trim_end(s: Seq<char>) -> (b: int)
    requires
        s.len() > 0 ==> !is_white_space(s[0]),
    ensures
        0 <= b <= s.len(),
        trim_end(s) == s.subrange(0, b),
        all_space(s.skip(b)),
        0 < b ==> !is_white_space(s[b - 1]),
    decreases s.len(),
{
    if s.len() > 0 && is_white_space(s.last()) {
        let rest = s.drop_last();
        let b = lemma_trim_end(rest);
        assert(s.subrange(0, b) =~= rest.subrange(0, b));
        assert forall|i: int| 0 <= i < s.skip(b).len() implies is_white_space(
            #[trigger] s.skip(b)[i],
        ) by {
            if i < rest.len() - b {
                assert(rest.skip(b)[i] == s[b + i]);
            }
        }
        b
    } else {
        assert(s.subrange(0, s.len() as int) =~= s);
        s.len() as int
    }
}

/// Trimming takes white space off at the ends, and nothing more.
pub proof fn lemma_trim_padded(lead: Seq<char>, t: Seq<char>, tail: Seq<char>)
    requires
        all_space(lead),
        all_space(tail),
        t.len() > 0 ==> !is_white_space(t[0]) && !is_white_space(t.last()),
    ensures
        trim(lead + t + tail) == t,
{
    let s = lead + t + tail;
    let (a, b) = lemma_trim(s);
    let m = lead.len() as int;
    let n = (lead.len() + t.len()) as int;
    if t.len() > 0 {
        assert(s[m] == t[0]);
        assert(s[n - 1] == t.last());
        if m < a {
            assert(s.take(a)[m] == s[m]);
        }
        if n - 1 >= b {
            assert(s.skip(b)[n - 1 - b] == s[n - 1]);
        }
        if a < m {
            assert(s[a] == lead[a]);
        }
        if b > n {
            assert(s[b - 1] == tail[b - 1 - n]);
        }
        assert(s.subrange(a, b) =~= t);
    } else {
        if a < b {
            if a < m {
                assert(s[a] == lead[a]);
            } else {
                assert(s[a] == tail[a - n]);
            }
        }
        assert(s.subrange(a, b) =~= t);
    }
}

/// The index of the first character that is not white space, or the length.
pub fn leading_space(v: &Vec<char>) -> (i: usize)
    ensures
        i <= v@.len(),
        trim_start(v@) == v@.skip(i as int),
        forall|k: int| 0 <= k < i ==> is_white_space(#[trigger] v@[k]),
        i < v@.len() ==> !is_white_space(v@[i as int]),
{
    let mut i: usize = 0;
    assert(v@.skip(0) =~= v@);
    while i < v.len() && white_space(v[i])
        invariant
            i <= v@.len(),
            trim_start(v@) == trim_start(v@.skip(i as int)),
            forall|k: int| 0 <= k < i ==> is_white_space(#[trigger] v@[k]),
        decreases v@.len() - i,
    {
        assert(v@.skip(i as int).drop_first() =~= v@.skip(i + 1));
        i += 1;
    }
    i
}

/// `s` without white space at either end.
pub fn trimmed(s: &str) -> (r: String)
    ensures
        r@ == trim(s@),
{
    let v = chars_of(s);
    let i: usize = leading_space(&v);
    let mut j: usize = v.len();
    assert(v@.skip(i as int) =~= v@.subrange(i as int, j as int));
    while i < j && white_space(v[j - 1])
        invariant
            i <= j <= v@.len(),
            trim(v@) == trim_end(v@.subrange(i as int, j as int)),
        decreases j,
    {
        assert(v@.subrange(i as int, j as int).drop_last() =~= v@.subrange(i as int, j - 1));
        j -= 1;
    }
    text_between(&v, i, j)
}

// ── searching ──

/// `p` stands in `s` at index `i`.
pub open spec fn occurs_at(s: Seq<char>, p: Seq<char>, i: int) -> bool {
    0 <= i && i + p.len() <= s.len() && s.subrange(i, i + p.len()) == p
}

/// `p` stands somewhere in `s`.
pub open spec fn contains(s: Seq<char>, p: Seq<char>) -> bool {
    exists|i: int| occurs_at(s, p, i)
}

pub open spec fn starts_with(s: Seq<char>, p: Seq<char>) -> bool {
    occurs_at(s, p, 0)
}

pub open spec fn ends_with(s: Seq<char>, p: Seq<char>) -> bool {
    occurs_at(s, p, s.len() - p.len())
}

/// The least index, not below `from`, at which `p` stands in `s`.
pub open spec fn find_from(s: Seq<char>, p: Seq<char>, from: int) -> Option<int>
    decreases s.len() + 1 - from,
{
    if from < 0 || from + p.len() > s.len() {
        None
    } else if occurs_at(s, p, from) {
        Some(from)
    } else {
        find_from(s, p, from + 1)
    }
}

/// What `find_from` finds is an occurrence, and none comes before it.
pub proof fn lemma_find_from(s: Seq<char>, p: Seq<char>, from: int)
    requires
        0 <= from,
    ensures
        match find_from(s, p, from) {
            Some(k) => from <= k && occurs_at(s, p, k) && forall|i: int|
                from <= i < k ==> !occurs_at(s, p, i),
            None => forall|i: int| from <= i ==> !occurs_at(s, p, i),
        },
    decreases s.len() + 1 - from,
{
    if from + p.len() <= s.len() && !occurs_at(s, p, from) {
        lemma_find_from(s, p, from + 1);
    }
}

/// Whether the characters of `p` stand in `v` at `i`.
pub fn occurs_here(v: &Vec<char>, p: &Vec<char>, i: usize) -> (r: bool)
    requires
        i <= v@.len(),
    ensures
        r == occurs_at(v@, p@, i as int),
{
    if p.len() > v.len() - i {
        return false;
    }
    let mut k: usize = 0;
    while k < p.len()
        invariant
            k <= p@.len(),
            i + p@.len() <= v@.len() == v.len(),
            forall|m: int| 0 <= m < k ==> v@[i + m] == p@[m],
        decreases p@.len() - k,
    {
        if v[i + k] != p[k] {
            assert(v@.subrange(i as int, i + p@.len())[k as int] != p@[k as int]);
            return false;
        }
        k += 1;
    }
    assert(v@.subrange(i as int, i + p@.len()) =~= p@);
    true
}

fn find_chars(v: &Vec<char>, p: &Vec<char>, from: usize) -> (r: Option<usize>)
    requires
        from <= v@.len(),
    ensures
        match r {
            Some(k) => find_from(v@, p@, from as int) == Some(k as int) && k + p@.len() <= v@.len()
                && from <= k,
            None => find_from(v@, p@, from as int) is None,
        },
{
    let mut i: usize = from;
    while p.len() <= v.len() - i
        invariant
            from <= i <= v@.len(),
            find_from(v@, p@, from as int) == find_from(v@, p@, i as int),
        decreases v@.len() - i,
    {
        if occurs_here(v, p, i) {
            return Some(i);
        }
        if i == v.len() {
            assert(find_from(v@, p@, i + 1) is None);
            return None;
        }
        i += 1;
    }
    None
}

/// Whether `p` stands somewhere in `s`.
pub fn has(s: &str, p: &str) -> (r: bool)
    ensures
        r == contains(s@, p@),
{
    let v = chars_of(s);
    let q = chars_of(p);
    proof {
        lemma_find_from(v@, q@, 0);
        if contains(s@, p@) {
            let i = choose|i: int| occurs_at(s@, p@, i);
            assert(occurs_at(v@, q@, i));
        }
    }
    match find_chars(&v, &q, 0) {
        Some(_) => true,
        None => false,
    }
}

pub fn has_prefix(s: &str, p: &str) -> (r: bool)
    ensures
        r == starts_with(s@, p@),
{
    occurs_here(&chars_of(s), &chars_of(p), 0)
}

pub fn has_suffix(s: &str, p: &str) -> (r: bool)
    ensures
        r == ends_with(s@, p@),
{
    let v = chars_of(s);
    let q = chars_of(p);
    if q.len() > v.len() {
        return false;
    }
    occurs_here(&v, &q, v.len() - q.len())
}

// ── splitting and joining ──

/// The views of a list of strings.
pub open spec fn views(v: Seq<String>) -> Seq<Seq<char>> {
    v.map_values(|t: String| t@)
}

/// The pieces of `s` between the occurrences of `sep`, found from the left.
pub open spec fn split(s: Seq<char>, sep: Seq<char>) -> Seq<Seq<char>>
    decreases s.len(),
{
    match find_from(s, sep, 0) {
        Some(k) => if 0 <= k && 0 < sep.len() && k + sep.len() <= s.len() {
            seq![s.subrange(0, k)] + split(s.skip(k + sep.len()), sep)
        } else {
            seq![s]
        },
        None => seq![s],
    }
}

/// The parts with `sep` between each two neighbours.
pub open spec fn join(parts: Seq<Seq<char>>, sep: Seq<char>) -> Seq<char>
    decreases parts.len(),
{
    if parts.len() == 0 {
        Seq::empty()
    } else if parts.len() == 1 {
        parts[0]
    } else {
        join(parts.drop_last(), sep) + sep + parts.last()
    }
}

/// The parts with `sep` between each two neighbours.
pub fn joined(parts: &Vec<String>, sep: &str) -> (r: String)
    ensures
        r@ == join(views(parts@), sep@),
{
    let mut r: String = String::new();
    let mut i: usize = 0;
    while i < parts.len()
        invariant
            i <= parts@.len(),
            r@ == join(views(parts@).take(i as int), sep@),
        decreases parts@.len() - i,
    {
        if i > 0 {
            r.append(sep);
        }
        r.append(parts[i].as_str());
        assert(views(parts@).take(i + 1).drop_last() =~= views(parts@).take(i as int));
        i += 1;
    }
    assert(views(parts@).take(parts@.len() as int) =~= views(parts@));
    r
}

/// The pieces of `s` between the occurrences of `sep`, found from the left.
pub fn split_on(s: &str, sep: &str) -> (r: Vec<String>)
    requires
        sep@.len() > 0,
    ensures
        views(r@) == split(s@, sep@),
        r@.len() > 0,
{
    let v = chars_of(s);
    let q = chars_of(sep);
    let mut r: Vec<String> = Vec::new();
    let mut start: usize = 0;
    assert(v@.skip(0) =~= v@);
    assert(views(r@) + split(v@, q@) =~= split(v@, q@));
    loop
        invariant
            q@ == sep@,
            v@ == s@,
            q@.len() > 0,
            start <= v@.len() == v.len(),
            views(r@) + split(v@.skip(start as int), q@) == split(v@, q@),
        decreases v@.len() - start,
    {
        proof {
            lemma_find_in_tail(v@, q@, start as int, start as int);
        }
        match find_chars(&v, &q, start) {
            Some(k) => {
                let ghost before = r@;
                let piece = text_between(&v, start, k);
                r.push(piece);
                proof {
                    let tail = v@.skip(start as int);
                    assert(tail.subrange(0, k - start) =~= v@.subrange(start as int, k as int));
                    assert(tail.skip(k - start + q@.len()) =~= v@.skip(k + q@.len()));
                    assert(views(r@) =~= views(before).push(piece@));
                    assert(views(r@) + split(v@.skip(k + q@.len()), q@) =~= views(before) + split(
                        tail,
                        q@,
                    ));
                }
                start = k + q.len();
            },
            None => {
                let ghost before = r@;
                let piece = text_between(&v, start, v.len());
                r.push(piece);
                proof {
                    assert(v@.skip(start as int) =~= v@.subrange(start as int, v@.len() as int));
                    assert(views(r@) =~= views(before) + seq![piece@]);
                }
                return r;
            },
        }
    }
}

/// Searching `s` from `from` is searching its tail after `base` from `from - base`.
proof fn lemma_find_in_tail(s: Seq<char>, p: Seq<char>, base: int, from: int)
    requires
        0 <= base <= from,
        base <= s.len(),
    ensures
        find_from(s.skip(base), p, from - base) == match find_from(s, p, from) {
            Some(k) => Some(k - base),
            None => None,
        },
    decreases s.len() + 1 - from,
{
    if from + p.len() <= s.len() {
        assert(s.skip(base).subrange(from - base, from - base + p.len()) =~= s.subrange(
            from,
            from + p.len(),
        ));
        if !occurs_at(s, p, from) {
            lemma_find_in_tail(s, p, base, from + 1);
        }
    }
}

/// What a part of `s` holds, `s` holds.
pub proof fn lemma_part_holds(s: Seq<char>, from: int, to: int, p: Seq<char>)
    requires
        0 <= from <= to <= s.len(),
    ensures
        contains(s.subrange(from, to), p) ==> contains(s, p),
{
    let part = s.subrange(from, to);
    if contains(part, p) {
        let i = choose|i: int| occurs_at(part, p, i);
        assert(s.subrange(from + i, from + i + p.len()) =~= part.subrange(i, i + p.len()));
        assert(occurs_at(s, p, from + i));
    }
}

/// A text without the separator is one piece.
pub proof fn lemma_split_whole(s: Seq<char>, sep: Seq<char>)
    requires
        sep.len() > 0,
        !contains(s, sep),
    ensures
        split(s, sep) == seq![s],
{
    lemma_find_from(s, sep, 0);
    if let Some(k) = find_from(s, sep, 0) {
        assert(occurs_at(s, sep, k));
    }
}

/// No piece holds the separator, and what a piece holds the text holds.
pub proof fn lemma_split_pieces(s: Seq<char>, sep: Seq<char>, p: Seq<char>)
    requires
        sep.len() > 0,
    ensures
        split(s, sep).len() > 0,
        forall|i: int|
            0 <= i < split(s, sep).len() ==> !contains(#[trigger] split(s, sep)[i], sep) && (
            contains(split(s, sep)[i], p) ==> contains(s, p)),
    decreases s.len(),
{
    lemma_find_from(s, sep, 0);
    let pieces = split(s, sep);
    match find_from(s, sep, 0) {
        Some(k) => {
            let first = s.subrange(0, k);
            let rest = s.skip(k + sep.len());
            lemma_split_pieces(rest, sep, p);
            lemma_part_holds(s, 0, k, p);
            assert(rest =~= s.subrange(k + sep.len(), s.len() as int));
            lemma_part_holds(s, k + sep.len(), s.len() as int, p);
            if contains(first, sep) {
                let i = choose|i: int| occurs_at(first, sep, i);
                assert(s.subrange(i, i + sep.len()) =~= first.subrange(i, i + sep.len()));
                assert(occurs_at(s, sep, i));
            }
            assert forall|i: int| 0 <= i < pieces.len() implies !contains(
                #[trigger] pieces[i],
                sep,
            ) && (contains(pieces[i], p) ==> contains(s, p)) by {
                if i > 0 {
                    assert(pieces[i] == split(rest, sep)[i - 1]);
                }
            }
        },
        None => {
            assert(pieces =~= seq![s]);
        },
    }
}

/// A character stands twice in a row.
pub proof fn lemma_pair(s: Seq<char>, c: char, i: int)
    ensures
        occurs_at(s, seq![c, c], i) <==> 0 <= i && i + 1 < s.len() && s[i] == c && s[i + 1] == c,
{
    if 0 <= i && i + 1 < s.len() {
        let two = s.subrange(i, i + 2);
        assert(two[0] == s[i] && two[1] == s[i + 1]);
        assert(seq![c, c][0] == c && seq![c, c][1] == c);
        if s[i] == c && s[i + 1] == c {
            assert(two =~= seq![c, c]);
        }
    }
}

/// The first part stands first in a joined text.
pub proof fn lemma_join_first(parts: Seq<Seq<char>>, sep: Seq<char>)
    requires
        parts.len() > 1,
    ensures
        join(parts, sep) == parts[0] + sep + join(parts.drop_first(), sep),
    decreases parts.len(),
{
    let front = parts.drop_last();
    let rest = parts.drop_first();
    if parts.len() == 2 {
        assert(join(front, sep) == parts[0]);
        assert(join(rest, sep) == parts.last());
    } else {
        lemma_join_first(front, sep);
        assert(front.drop_first() =~= rest.drop_last());
        assert(join(parts, sep) =~= parts[0] + sep + join(rest, sep));
    }
}

/// Two equal characters side by side in a joined text stand in one of its parts,
/// where the separator does not hold the character.
pub proof fn lemma_joined_holds_no_pair(parts: Seq<Seq<char>>, c: char, d: char)
    requires
        c != d,
        d != ' ',
        forall|i: int| 0 <= i < parts.len() ==> !contains(#[trigger] parts[i], seq![d, d]),
    ensures
        !contains(join(parts, seq![' ', c, c, ' ']), seq![d, d]),
    decreases parts.len(),
{
    let sep = seq![' ', c, c, ' '];
    let whole = join(parts, sep);
    if parts.len() == 0 {
        assert forall|i: int| !occurs_at(whole, seq![d, d], i) by {
            lemma_pair(whole, d, i);
        }
    } else if parts.len() > 1 {
        let front = join(parts.drop_last(), sep);
        let last = parts.last();
        assert forall|i: int| 0 <= i < parts.drop_last().len() implies !contains(
            #[trigger] parts.drop_last()[i],
            seq![d, d],
        ) by {
            assert(parts.drop_last()[i] == parts[i]);
        }
        lemma_joined_holds_no_pair(parts.drop_last(), c, d);
        assert(last == parts[parts.len() - 1]);
        assert(sep[0] == ' ' && sep[1] == c && sep[2] == c && sep[3] == ' ');
        assert forall|i: int| !occurs_at(whole, seq![d, d], i) by {
            lemma_pair(whole, d, i);
            if occurs_at(whole, seq![d, d], i) {
                let n = front.len() as int;
                if i + 1 < n {
                    assert(front[i] == whole[i] && front[i + 1] == whole[i + 1]);
                    lemma_pair(front, d, i);
                    assert(occurs_at(front, seq![d, d], i));
                } else if i + 1 < n + 4 {
                    assert(whole[i + 1] == sep[i + 1 - n]);
                } else if i < n + 4 {
                    assert(whole[i] == sep[i - n]);
                } else {
                    assert(last[i - n - 4] == whole[i] && last[i + 1 - n - 4] == whole[i + 1]);
                    lemma_pair(last, d, i - n - 4);
                    assert(occurs_at(last, seq![d, d], i - n - 4));
                }
            }
        }
    }
}

/// What stands before the part at `i` in its piece of a joined text.
pub open spec fn before_piece(lead: Seq<char>, i: int) -> Seq<char> {
    if i == 0 {
        lead
    } else {
        seq![' ']
    }
}

/// What stands behind the part at `i` of `n` in its piece of a joined text.
pub open spec fn after_piece(tail: Seq<char>, i: int, n: nat) -> Seq<char> {
    if i == n - 1 {
        tail
    } else {
        seq![' ']
    }
}

/// Splitting a joined text gives the parts back, with white space around them.
pub proof fn lemma_split_joined(
    parts: Seq<Seq<char>>,
    c: char,
    lead: Seq<char>,
    tail: Seq<char>,
)
    requires
        parts.len() > 0,
        !is_white_space(c),
        all_space(lead),
        all_space(tail),
        forall|i: int| 0 <= i < parts.len() ==> !contains(#[trigger] parts[i], seq![c, c]),
    ensures
        split(lead + join(parts, seq![' ', c, c, ' ']) + tail, seq![c, c]) == Seq::new(
            parts.len(),
            |i: int| before_piece(lead, i) + parts[i] + after_piece(tail, i, parts.len()),
        ),
    decreases parts.len(),
{
    let sep = seq![' ', c, c, ' '];
    let pair = seq![c, c];
    let s = lead + join(parts, sep) + tail;
    let want = Seq::new(
        parts.len(),
        |i: int| before_piece(lead, i) + parts[i] + after_piece(tail, i, parts.len()),
    );
    let first = parts[0];
    let m = lead.len() as int;
    let n = (lead.len() + first.len()) as int;
    assert(is_white_space(' '));
    if parts.len() == 1 {
        assert forall|i: int| !occurs_at(s, pair, i) by {
            lemma_pair(s, c, i);
            if occurs_at(s, pair, i) {
                if i < m {
                    assert(s[i] == lead[i]);
                } else if i + 1 >= n {
                    assert(s[i + 1] == tail[i + 1 - n]);
                } else {
                    assert(first[i - m] == s[i] && first[i + 1 - m] == s[i + 1]);
                    lemma_pair(first, c, i - m);
                    assert(occurs_at(first, pair, i - m));
                }
            }
        }
        lemma_split_whole(s, pair);
        assert(split(s, pair) =~= want);
    } else {
        let rest = parts.drop_first();
        lemma_join_first(parts, sep);
        assert forall|i: int| 0 <= i < rest.len() implies !contains(
            #[trigger] rest[i],
            seq![c, c],
        ) by {
            assert(rest[i] == parts[i + 1]);
        }
        let space = seq![' '];
        lemma_split_joined(rest, c, space, tail);
        assert(sep[0] == ' ' && sep[1] == c && sep[2] == c && sep[3] == ' ');
        assert(s =~= lead + first + sep + join(rest, sep) + tail);
        assert(s[n] == ' ' && s[n + 1] == c && s[n + 2] == c && s[n + 3] == ' ');
        lemma_pair(s, c, n + 1);
        assert forall|i: int| 0 <= i < n + 1 implies !occurs_at(s, pair, i) by {
            lemma_pair(s, c, i);
            if occurs_at(s, pair, i) {
                if i < m {
                    assert(s[i] == lead[i]);
                } else if i + 1 < n {
                    assert(first[i - m] == s[i] && first[i + 1 - m] == s[i + 1]);
                    lemma_pair(first, c, i - m);
                    assert(occurs_at(first, pair, i - m));
                }
            }
        }
        lemma_find_from(s, pair, 0);
        assert(find_from(s, pair, 0) == Some(n + 1));
        assert(s.subrange(0, n + 1) =~= lead + first + space);
        let after = space + join(rest, sep) + tail;
        assert(s.skip(n + 3) =~= after);
        assert(split(s, pair) == seq![lead + first + space] + split(after, pair));
        assert forall|i: int| 0 <= i < want.len() implies #[trigger] want[i] == split(s, pair)[i] by {
            if i > 0 {
                assert(rest[i - 1] == parts[i]);
            }
        }
        assert(split(s, pair) =~= want);
    }
}

/// The lines of `s`: the pieces between line feeds, without the carriage
/// return that stands before a line feed, and without an empty last piece.
pub open spec fn lines(s: Seq<char>) -> Seq<Seq<char>>
    decreases s.len(),
{
    match find_from(s, seq!['\n'], 0) {
        Some(k) => if 0 <= k < s.len() {
            let line = s.subrange(0, k);
            seq![
                if line.len() > 0 && line.last() == '\r' {
                    line.drop_last()
                } else {
                    line
                },
            ] + lines(s.skip(k + 1))
        } else {
            seq![s]
        },
        None => if s.len() == 0 {
            Seq::empty()
        } else {
            seq![s]
        },
    }
}

pub fn lines_of(s: &str) -> (r: Vec<String>)
    ensures
        views(r@) == lines(s@),
{
    let v = chars_of(s);
    let mut feed: Vec<char> = Vec::new();
    feed.push('\n');
    let mut r: Vec<String> = Vec::new();
    let mut start: usize = 0;
    assert(feed@ =~= seq!['\n']);
    assert(v@.skip(0) =~= v@);
    assert(views(r@) + lines(v@) =~= lines(v@));
    loop
        invariant
            feed@ == seq!['\n'],
            v@ == s@,
            start <= v@.len() == v.len(),
            views(r@) + lines(v@.skip(start as int)) == lines(v@),
        decreases v@.len() - start,
    {
        let ghost before = r@;
        let ghost tail = v@.skip(start as int);
        proof {
            lemma_find_in_tail(v@, feed@, start as int, start as int);
        }
        match find_chars(&v, &feed, start) {
            Some(k) => {
                let end: usize = if start < k && v[k - 1] == '\r' {
                    k - 1
                } else {
                    k
                };
                let piece = text_between(&v, start, end);
                r.push(piece);
                proof {
                    let line = tail.subrange(0, k - start);
                    assert(line =~= v@.subrange(start as int, k as int));
                    assert(start < k ==> line.drop_last() =~= v@.subrange(start as int, k - 1));
                    assert(tail.skip(k - start + 1) =~= v@.skip(k + 1));
                    assert(views(r@) =~= views(before).push(piece@));
                    assert(views(r@) + lines(v@.skip(k + 1)) =~= views(before) + lines(tail));
                }
                start = k + 1;
            },
            None => {
                if start < v.len() {
                    let piece = text_between(&v, start, v.len());
                    r.push(piece);
                    assert(tail =~= v@.subrange(start as int, v@.len() as int));
                    assert(views(r@) =~= views(before) + seq![piece@]);
                } else {
                    assert(views(r@) =~= views(r@) + lines(tail));
                }
                return r;
            },
        }
    }
}

// ── letter case ──

pub open spec fn lower_char(c: char) -> char {
    if 'A' <= c <= 'Z' {
        ((c as u8) + 32) as u8 as char
    } else {
        c
    }
}

pub open spec fn upper_char(c: char) -> char {
    if 'a' <= c <= 'z' {
        ((c as u8) - 32) as u8 as char
    } else {
        c
    }
}

/// `s` with the ASCII letters in lower case.
pub open spec fn lower(s: Seq<char>) -> Seq<char> {
    s.map_values(|c: char| lower_char(c))
}

/// `s` with the ASCII letters in upper case.
pub open spec fn upper(s: Seq<char>) -> Seq<char> {
    s.map_values(|c: char| upper_char(c))
}

pub fn lowered(s: &str) -> (r: String)
    ensures
        r@ == lower(s@),
{
    let v = chars_of(s);
    let mut r: String = String::new();
    let mut i: usize = 0;
    while i < v.len()
        invariant
            i <= v@.len(),
            r@ == lower(v@.take(i as int)),
        decreases v@.len() - i,
    {
        let c = v[i];
        if 'A' <= c && c <= 'Z' {
            r.push(((c as u8) + 32) as char);
        } else {
            r.push(c);
        }
        assert(lower(v@.take(i + 1)) =~= lower(v@.take(i as int)).push(lower_char(c)));
        i += 1;
    }
    assert(v@.take(v@.len() as int) =~= v@);
    r
}

pub fn uppered(s: &str) -> (r: String)
    ensures
        r@ == upper(s@),
{
    let v = chars_of(s);
    let mut r: String = String::new();
    let mut i: usize = 0;
    while i < v.len()
        invariant
            i <= v@.len(),
            r@ == upper(v@.take(i as int)),
        decreases v@.len() - i,
    {
        let c = v[i];
        if 'a' <= c && c <= 'z' {
            r.push(((c as u8) - 32) as char);
        } else {
            r.push(c);
        }
        assert(upper(v@.take(i + 1)) =~= upper(v@.take(i as int)).push(upper_char(c)));
        i += 1;
    }
    assert(v@.take(v@.len() as int) =~= v@);
    r
}

// ── numbers ──

/// The character of a decimal digit.
pub open spec fn digit_char(d: int) -> char {
    (48 + d) as u8 as char
}

/// `n` in decimal, without leading zeros.
pub open spec fn decimal(n: nat) -> Seq<char>
    decreases n,
{
    if n < 10 {
        seq![digit_char(n as int)]
    } else {
        decimal(n / 10).push(digit_char((n % 10) as int))
    }
}

/// Different numbers are written differently.
pub proof fn lemma_decimal_injective(a: nat, b: nat)
    requires
        a != b,
    ensures
        decimal(a) != decimal(b),
        decimal(a).len() > 0,
    decreases a,
{
    reveal_with_fuel(decimal, 2);
    let x = decimal(a);
    let y = decimal(b);
    if x == y {
        assert(x.last() == digit_char((a % 10) as int));
        assert(y.last() == digit_char((b % 10) as int));
        assert(a % 10 == b % 10);
        if a >= 10 && b >= 10 {
            lemma_decimal_injective(a / 10, b / 10);
            assert(x.drop_last() =~= decimal(a / 10));
            assert(y.drop_last() =~= decimal(b / 10));
        } else if a >= 10 {
            assert(decimal(a / 10).len() > 0);
        } else if b >= 10 {
            assert(decimal(b / 10).len() > 0);
        }
    }
}

pub fn decimal_text(n: u64) -> (r: String)
    ensures
        r@ == decimal(n as nat),
    decreases n,
{
    let last = (48u8 + (n % 10) as u8) as char;
    if n < 10 {
        let mut r: String = String::new();
        r.push(last);
        assert(r@ =~= decimal(n as nat));
        r
    } else {
        let mut r = decimal_text(n / 10);
        r.push(last);
        r
    }
}

/// The concatenation of two texts.
pub fn cat(a: &str, b: &str) -> (r: String)
    ensures
        r@ == a@ + b@,
{
    let mut r: String = a.to_owned();
    r.append(b);
    r
}

/// An optional text by its view.
pub open spec fn opt_text(s: Option<String>) -> Option<Seq<char>> {
    match s {
        Some(s) => Some(s@),
        None => None,
    }
}

pub fn copied(s: &Option<String>) -> (r: Option<String>)
    ensures
        r == *s,
{
    match s {
        Some(s) => Some(s.clone()),
        None => None,
    }
}

/// The text of an option, or `default`.
pub fn copied_or(s: &Option<String>, default: &str) -> (r: String)
    ensures
        r@ == (match *s {
            Some(s) => s@,
            None => default@,
        }),
{
    match s {
        Some(s) => s.clone(),
        None => default.to_owned(),
    }
}

pub fn copied_list(v: &Vec<String>) -> (r: Vec<String>)
    ensures
        r@ == v@,
{
    let mut r: Vec<String> = Vec::new();
    let mut i: usize = 0;
    while i < v.len()
        invariant
            i <= v@.len(),
            r@ == v@.take(i as int),
        decreases v@.len() - i,
    {
        r.push(v[i].clone());
        assert(v@.take(i + 1) =~= v@.take(i as int).push(v@[i as int]));
        i += 1;
    }
    assert(v@.take(v@.len() as int) =~= v@);
    r
}

// ── laws ──

/// The characters that count as white space are the twenty-five of Unicode.
pub proof fn law_white_space(c: char)
    ensures
        is_white_space(c) <==> c == '\u{9}' || c == '\u{a}' || c == '\u{b}' || c == '\u{c}' || c
            == '\u{d}' || c == ' ' || c == '\u{85}' || c == '\u{a0}' || c == '\u{1680}' || c
            == '\u{2000}' || c == '\u{2001}' || c == '\u{2002}' || c == '\u{2003}' || c
            == '\u{2004}' || c == '\u{2005}' || c == '\u{2006}' || c == '\u{2007}' || c
            == '\u{2008}' || c == '\u{2009}' || c == '\u{200a}' || c == '\u{2028}' || c
            == '\u{2029}' || c == '\u{202f}' || c == '\u{205f}' || c == '\u{3000}',
{
}

/// A text begins with what it was continued from, ends with what it was continued
/// by, and holds both; and where it begins or ends with a text, it is that text with
/// something behind or before it.
pub proof fn law_parts_of_a_text(a: Seq<char>, b: Seq<char>, s: Seq<char>)
    ensures
        starts_with(a + b, a),
        ends_with(a + b, b),
        contains(a + b, a),
        contains(a + b, b),
        starts_with(s, a) ==> s == a + s.skip(a.len() as int),
        ends_with(s, a) ==> a.len() <= s.len() && s == s.take(s.len() - a.len()) + a,
        s.len() < a.len() ==> !starts_with(s, a) && !ends_with(s, a) && !contains(s, a),
{
    assert((a + b).subrange(0, a.len() as int) =~= a);
    assert((a + b).subrange(a.len() as int, (a + b).len() as int) =~= b);
    assert(occurs_at(a + b, a, 0));
    assert(occurs_at(a + b, b, a.len() as int));
    if starts_with(s, a) {
        assert(s =~= s.subrange(0, a.len() as int) + s.skip(a.len() as int));
    }
    if ends_with(s, a) {
        assert(s =~= s.take(s.len() - a.len()) + s.subrange(
            s.len() - a.len(),
            s.len() - a.len() + a.len(),
        ));
    }
}

/// A text that holds another has it somewhere, with something before and behind it.
pub proof fn law_what_a_text_holds(a: Seq<char>, p: Seq<char>, b: Seq<char>, s: Seq<char>)
    ensures
        contains(a + p + b, p),
        contains(s, p) ==> exists|x: Seq<char>, y: Seq<char>| s == #[trigger] (x + p + y),
{
    assert((a + p + b).subrange(a.len() as int, a.len() as int + p.len()) =~= p);
    assert(occurs_at(a + p + b, p, a.len() as int));
    if contains(s, p) {
        let i = choose|i: int| occurs_at(s, p, i);
        let x = s.take(i);
        let y = s.skip(i + p.len());
        assert(s =~= x + s.subrange(i, i + p.len()) + y);
        assert(s == x + p + y);
    }
}

/// Joining the pieces of a text with what it was split at gives the text, and no
/// piece holds what it was split at.
pub proof fn law_joining_undoes_splitting(s: Seq<char>, sep: Seq<char>)
    requires
        sep.len() > 0,
    ensures
        join(split(s, sep), sep) == s,
        split(s, sep).len() > 0,
        forall|i: int| 0 <= i < split(s, sep).len() ==> !contains(#[trigger] split(s, sep)[i], sep),
    decreases s.len(),
{
    lemma_find_from(s, sep, 0);
    match find_from(s, sep, 0) {
        Some(k) => {
            let first = s.subrange(0, k);
            let rest = s.skip(k + sep.len());
            law_joining_undoes_splitting(rest, sep);
            let all = split(s, sep);
            assert(all == seq![first] + split(rest, sep));
            assert(all.drop_first() =~= split(rest, sep));
            lemma_join_first(all, sep);
            assert(s =~= first + s.subrange(k, k + sep.len()) + rest);
            assert(join(all, sep) =~= s);
            if contains(first, sep) {
                let i = choose|i: int| occurs_at(first, sep, i);
                assert(first.subrange(i, i + sep.len()) =~= s.subrange(i, i + sep.len()));
                assert(occurs_at(s, sep, i));
            }
            assert forall|i: int| 0 <= i < all.len() implies !contains(#[trigger] all[i], sep) by {
                if i > 0 {
                    assert(all[i] == split(rest, sep)[i - 1]);
                }
            }
        },
        None => {
            assert(split(s, sep) =~= seq![s]);
            if contains(s, sep) {
                let i = choose|i: int| occurs_at(s, sep, i);
                assert(0 <= i);
            }
        },
    }
}

/// Parts are joined one behind the other: one more adds what stands between, and
/// itself.
pub proof fn law_parts_are_joined(parts: Seq<Seq<char>>, part: Seq<char>, sep: Seq<char>)
    ensures
        parts.len() > 0 ==> join(parts.push(part), sep) == join(parts, sep) + sep + part,
        parts.len() == 0 ==> join(parts.push(part), sep) == part,
        parts.len() == 0 ==> join(parts, sep).len() == 0,
{
    assert(parts.push(part).drop_last() =~= parts);
}

/// The lines of a text: the first ends at the first line feed, and loses a carriage
/// return before it; the others are those of the rest. A text without a line feed is
/// one line, and no line where it is empty.
pub proof fn law_lines_are_cut_at_line_feeds(line: Seq<char>, rest: Seq<char>)
    requires
        !line.contains('\n'),
    ensures
        line.len() > 0 ==> lines(line) == seq![line],
        line.len() == 0 ==> lines(line).len() == 0,
        line.len() > 0 && line.last() == '\r' ==> lines(line + seq!['\n'] + rest) == seq![
            line.drop_last(),
        ] + lines(rest),
        line.len() == 0 || line.last() != '\r' ==> lines(line + seq!['\n'] + rest) == seq![line]
            + lines(rest),
{
    let feed = seq!['\n'];
    lemma_find_from(line, feed, 0);
    if let Some(k) = find_from(line, feed, 0) {
        assert(line.subrange(k, k + 1)[0] == '\n');
        assert(line[k] == '\n');
    }
    let s = line + feed + rest;
    let n = line.len() as int;
    lemma_find_from(s, feed, 0);
    assert(s.subrange(n, n + 1) =~= feed);
    assert(occurs_at(s, feed, n));
    let k = find_from(s, feed, 0)->0;
    assert(find_from(s, feed, 0) is Some);
    assert(s.subrange(k, k + 1)[0] == '\n');
    if k < n {
        assert(line[k] == '\n');
    }
    assert(k == n);
    assert(s.subrange(0, k) =~= line);
    assert(s.skip(k + 1) =~= rest);
}

/// Lower case: the letters from `A` to `Z` become those from `a` to `z`, each the
/// one thirty-two places on, and nothing else changes.
pub proof fn law_lower_case(s: Seq<char>, i: int)
    requires
        0 <= i < s.len(),
    ensures
        lower(s).len() == s.len(),
        'A' <= s[i] <= 'Z' ==> lower(s)[i] as int == s[i] as int + 32,
        !('A' <= s[i] <= 'Z') ==> lower(s)[i] == s[i],
{
}

/// Upper case: the letters from `a` to `z` become those from `A` to `Z`, each the
/// one thirty-two places back, and nothing else changes.
pub proof fn law_upper_case(s: Seq<char>, i: int)
    requires
        0 <= i < s.len(),
    ensures
        upper(s).len() == s.len(),
        'a' <= s[i] <= 'z' ==> upper(s)[i] as int == s[i] as int - 32,
        !('a' <= s[i] <= 'z') ==> upper(s)[i] == s[i],
{
}

/// The number that decimal digits stand for.
pub open spec fn number_of(digits: Seq<char>) -> int
    decreases digits.len(),
{
    if digits.len() == 0 {
        0
    } else {
        10 * number_of(digits.drop_last()) + (digits.last() as int - '0' as int)
    }
}

/// A number is written in decimal digits, which stand for it, and without a zero
/// before them.
pub proof fn law_numbers_are_written_in_decimal(n: nat)
    ensures
        number_of(decimal(n)) == n,
        decimal(n).len() > 0,
        forall|i: int| 0 <= i < decimal(n).len() ==> '0' <= #[trigger] decimal(n)[i] <= '9',
        n > 0 ==> decimal(n)[0] != '0',
        n == 0 ==> decimal(n).len() == 1,
    decreases n,
{
    reveal_with_fuel(number_of, 2);
    if n >= 10 {
        law_numbers_are_written_in_decimal(n / 10);
        let front = decimal(n / 10);
        assert(decimal(n).drop_last() =~= front);
        assert(decimal(n)[0] == front[0]);
        assert forall|i: int| 0 <= i < decimal(n).len() implies '0' <= #[trigger] decimal(n)[i]
            <= '9' by {
            if i < front.len() {
                assert(decimal(n)[i] == front[i]);
            }
        }
    } else {
        assert(decimal(n).drop_last() =~= Seq::empty());
    }
}

} // verus!
