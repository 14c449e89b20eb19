//! Paths with `/` between their components.
//!
//! A trailing separator and a component that is a single point, other than the
//! first one, do not count.

use crate::text;
use vstd::prelude::*;
use vstd::string::*;

verus! {

pub open spec fn is_absolute(path: Seq<char>) -> bool {
    path.len() > 0 && path[0] == '/'
}

/// `path` taken from `dir`.
pub open spec fn joined(dir: Seq<char>, path: Seq<char>) -> Seq<char> {
    if is_absolute(path) {
        path
    } else if dir.len() == 0 || dir.last() == '/' {
        dir + path
    } else {
        dir.push('/') + path
    }
}

/// Where the last component ends.
pub open spec fn name_end(path: Seq<char>) -> int
    decreases path.len(),
{
    if path.len() > 0 && path.last() == '/' {
        name_end(path.drop_last())
    } else if path.len() >= 2 && path.last() == '.' && path[path.len() - 2] == '/' {
        name_end(path.drop_last())
    } else {
        path.len() as int
    }
}

/// Where the component that ends at `end` begins.
pub open spec fn name_start(path: Seq<char>, end: int) -> int
    decreases end,
{
    if end <= 0 || path[end - 1] == '/' {
        end
    } else {
        name_start(path, end - 1)
    }
}

/// The last component, as it stands.
pub open spec fn last_component(path: Seq<char>) -> Seq<char> {
    path.subrange(name_start(path, name_end(path)), name_end(path))
}

/// The name of the file that a path names; none where it ends in a root or in a
/// component that names no file.
pub open spec fn file_name(path: Seq<char>) -> Option<Seq<char>> {
    let name = last_component(path);
    if name.len() == 0 || name == "."@ || name == ".."@ {
        None
    } else {
        Some(name)
    }
}

/// Where the extension of a file name begins: after the last point, unless that
/// one begins the name.
pub open spec fn dot(name: Seq<char>, from: int) -> Option<int>
    decreases from,
{
    if from <= 1 {
        None
    } else if name[from - 1] == '.' {
        Some(from - 1)
    } else {
        dot(name, from - 1)
    }
}

/// The file name without its extension.
pub open spec fn file_stem(path: Seq<char>) -> Option<Seq<char>> {
    match file_name(path) {
        Some(name) => match dot(name, name.len() as int) {
            Some(i) => Some(name.take(i)),
            None => Some(name),
        },
        None => None,
    }
}

/// The extension of the file name.
pub open spec fn extension(path: Seq<char>) -> Option<Seq<char>> {
    match file_name(path) {
        Some(name) => match dot(name, name.len() as int) {
            Some(i) => Some(name.skip(i + 1)),
            None => None,
        },
        None => None,
    }
}

/// The path with another extension of its file name.
pub open spec fn with_extension(path: Seq<char>, ext: Seq<char>) -> Seq<char> {
    match file_stem(path) {
        Some(stem) => path.take(name_start(path, name_end(path))) + stem + seq!['.'] + ext,
        None => path,
    }
}

/// The directory that a path stands in.
pub open spec fn parent(path: Seq<char>) -> Option<Seq<char>> {
    let end = name_end(path);
    if end == 0 {
        None
    } else {
        let dir = path.take(name_start(path, end));
        if name_end(dir) == 0 && is_absolute(dir) {
            Some(seq!['/'])
        } else {
            Some(dir.take(name_end(dir)))
        }
    }
}

pub fn absolute(path: &str) -> (r: bool)
    ensures
        r == is_absolute(path@),
{
    let v = text::chars_of(path);
    v.len() > 0 && v[0] == '/'
}

pub fn join(dir: &str, path: &str) -> (r: String)
    ensures
        r@ == joined(dir@, path@),
{
    if absolute(path) {
        return path.to_owned();
    }
    let v = text::chars_of(dir);
    let mut r: String = dir.to_owned();
    if v.len() > 0 && v[v.len() - 1] != '/' {
        r.push('/');
    }
    r.append(path);
    r
}

proof fn lemma_name_end(path: Seq<char>)
    ensures
        0 <= name_end(path) <= path.len(),
    decreases path.len(),
{
    if path.len() > 0 && (path.last() == '/' || (path.len() >= 2 && path.last() == '.' && path[
    path.len() - 2] == '/')) {
        lemma_name_end(path.drop_last());
    }
}

fn end_of_name(v: &Vec<char>, len: usize) -> (e: usize)
    requires
        len <= v@.len(),
    ensures
        e == name_end(v@.take(len as int)),
        e <= len,
{
    let mut e: usize = len;
    while e > 0 && (v[e - 1] == '/' || (e >= 2 && v[e - 1] == '.' && v[e - 2] == '/'))
        invariant
            e <= len <= v@.len(),
            name_end(v@.take(len as int)) == name_end(v@.take(e as int)),
        decreases e,
    {
        assert(v@.take(e as int).drop_last() =~= v@.take(e - 1));
        e = e - 1;
    }
    e
}

fn start_of_name(v: &Vec<char>, end: usize) -> (b: usize)
    requires
        end <= v@.len(),
    ensures
        b == name_start(v@, end as int),
        b <= end,
{
    let mut b: usize = end;
    while b > 0 && v[b - 1] != '/'
        invariant
            b <= end <= v@.len(),
            name_start(v@, end as int) == name_start(v@, b as int),
        decreases b,
    {
        b = b - 1;
    }
    b
}

/// The parts of a path: the characters, where the file name begins and ends, and
/// where its extension begins.
struct Parts {
    chars: Vec<char>,
    start: usize,
    end: usize,
    named: bool,
    dot: Option<usize>,
}

spec fn parts_of(p: Parts, path: Seq<char>) -> bool {
    &&& p.chars@ == path
    &&& p.end == name_end(path)
    &&& p.start == name_start(path, name_end(path))
    &&& p.start <= p.end <= path.len()
    &&& p.named == (file_name(path) is Some)
    &&& p.named ==> match p.dot {
        Some(i) => p.start < i < p.end && dot(
            last_component(path),
            last_component(path).len() as int,
        ) == Some(i - p.start),
        None => dot(last_component(path), last_component(path).len() as int) is None,
    }
}

proof fn lemma_one_dot()
    ensures
        "."@ == seq!['.'],
        ".."@ == seq!['.', '.'],
{
    reveal_strlit(".");
    reveal_strlit("..");
    assert("."@ =~= seq!['.']);
    assert(".."@ =~= seq!['.', '.']);
}

fn split(path: &str) -> (r: Parts)
    ensures
        parts_of(r, path@),
{
    let chars = text::chars_of(path);
    let n: usize = chars.len();
    assert(chars@.take(n as int) =~= chars@);
    let end = end_of_name(&chars, n);
    let start = start_of_name(&chars, end);
    let ghost name = last_component(path@);
    let len: usize = end - start;
    let no_file = len == 0 || (len == 1 && chars[start] == '.') || (len == 2 && chars[start] == '.'
        && chars[start + 1] == '.');
    proof {
        lemma_one_dot();
        assert(name == chars@.subrange(start as int, end as int));
        assert(name.len() == len);
        assert(seq!['.'].len() == 1 && seq!['.'][0] == '.');
        assert(seq!['.', '.'].len() == 2 && seq!['.', '.'][0] == '.' && seq!['.', '.'][1] == '.');
        if len == 1 {
            assert(name =~= seq![chars@[start as int]]);
            assert(name[0] == chars@[start as int]);
        }
        if len == 2 {
            assert(name =~= seq![chars@[start as int], chars@[start + 1]]);
            assert(name[0] == chars@[start as int] && name[1] == chars@[start + 1]);
        }
        assert(no_file == (file_name(path@) is None));
    }
    let mut i: usize = end;
    while i - start > 1 && chars[i - 1] != '.'
        invariant
            start <= i <= end <= chars@.len(),
            name == chars@.subrange(start as int, end as int),
            dot(name, name.len() as int) == dot(name, i - start),
        decreases i,
    {
        assert(name[i - start - 1] == chars@[i - 1]);
        i = i - 1;
    }
    let dot = if i - start > 1 {
        assert(name[i - start - 1] == chars@[i - 1]);
        Some(i - 1)
    } else {
        None
    };
    Parts { chars, start, end, named: !no_file, dot }
}

/// The file name of a path.
pub fn file_name_of(path: &str) -> (r: Option<String>)
    ensures
        text::opt_text(r) == file_name(path@),
{
    let p = split(path);
    if p.named {
        Some(text::text_between(&p.chars, p.start, p.end))
    } else {
        None
    }
}

/// The file name without its extension.
pub fn file_stem_of(path: &str) -> (r: Option<String>)
    ensures
        text::opt_text(r) == file_stem(path@),
{
    let p = split(path);
    if !p.named {
        return None;
    }
    match p.dot {
        Some(i) => {
            let r = text::text_between(&p.chars, p.start, i);
            assert(r@ =~= last_component(path@).take(i - p.start));
            Some(r)
        },
        None => Some(text::text_between(&p.chars, p.start, p.end)),
    }
}

/// The extension of the file name.
pub fn extension_of(path: &str) -> (r: Option<String>)
    ensures
        text::opt_text(r) == extension(path@),
{
    let p = split(path);
    if !p.named {
        return None;
    }
    match p.dot {
        Some(i) => {
            let r = text::text_between(&p.chars, i + 1, p.end);
            assert(r@ =~= last_component(path@).skip(i - p.start + 1));
            Some(r)
        },
        None => None,
    }
}

/// The path with another extension of its file name.
pub fn replace_extension(path: &str, ext: &str) -> (r: String)
    ensures
        r@ == with_extension(path@, ext@),
{
    let p = split(path);
    if !p.named {
        return path.to_owned();
    }
    let stem_end: usize = match p.dot {
        Some(i) => i,
        None => p.end,
    };
    let mut r = text::text_between(&p.chars, 0, stem_end);
    assert(r@ =~= path@.take(p.start as int) + file_stem(path@)->0);
    r.push('.');
    r.append(ext);
    assert(r@ =~= with_extension(path@, ext@));
    r
}

/// The directory that a path stands in.
pub fn parent_of(path: &str) -> (r: Option<String>)
    ensures
        text::opt_text(r) == parent(path@),
{
    let p = split(path);
    if p.end == 0 {
        return None;
    }
    let end = end_of_name(&p.chars, p.start);
    let ghost dir = path@.take(p.start as int);
    if end == 0 && p.start > 0 && p.chars[0] == '/' {
        let mut root = String::new();
        root.push('/');
        assert(dir[0] == path@[0]);
        assert(root@ =~= seq!['/']);
        return Some(root);
    }
    let r = text::text_between(&p.chars, 0, end);
    proof {
        lemma_name_end(dir);
        if dir.len() > 0 {
            assert(dir[0] == path@[0]);
        }
        assert(r@ =~= dir.take(name_end(dir)));
    }
    Some(r)
}

// ── laws ──

/// A path with a new extension has that extension and keeps its stem, where it
/// names a file and the extension is one word without points and separators.
pub proof fn law_new_extension_is_the_extension(path: Seq<char>, ext: Seq<char>)
    requires
        file_name(path) is Some,
        ext.len() > 0,
        forall|i: int| 0 <= i < ext.len() ==> #[trigger] ext[i] != '.' && ext[i] != '/',
    ensures
        extension(with_extension(path, ext)) == Some(ext),
        file_stem(with_extension(path, ext)) == file_stem(path),
{
    lemma_one_dot();
    lemma_name_end(path);
    let start = name_start(path, name_end(path));
    lemma_name_start(path, name_end(path));
    let stem = file_stem(path)->0;
    let name = last_component(path);
    lemma_dot(name, name.len() as int);
    let new = with_extension(path, ext);
    let n = new.len() as int;
    assert(new.last() == ext.last());
    assert(ext.last() == ext[ext.len() - 1]);
    assert(name_end(new) == n);
    let new_name = stem + seq!['.'] + ext;
    assert forall|k: int| start <= k < n implies new[k] != '/' by {
        if k < start + stem.len() {
            assert(new[k] == stem[k - start]);
            assert(stem[k - start] == name[k - start]);
            assert(name[k - start] == path[k]);
        } else if k > start + stem.len() {
            assert(new[k] == ext[k - start - stem.len() - 1]);
        }
    }
    assert(start > 0 ==> new[start - 1] == '/') by {
        if start > 0 {
            assert(new[start - 1] == path[start - 1]);
        }
    }
    lemma_name_start_is(new, n, start);
    assert(last_component(new) =~= new_name);
    assert forall|k: int| stem.len() < k < new_name.len() implies new_name[k] != '.' by {
        assert(new_name[k] == ext[k - stem.len() - 1]);
    }
    lemma_dot_is(new_name, new_name.len() as int, stem.len() as int);
    assert(new_name.skip(stem.len() as int + 1) =~= ext);
    assert(new_name.take(stem.len() as int) =~= stem);
    assert(new_name.len() >= 3);
}

/// A directory without the separators and points that do not count at its end.
pub open spec fn plain(dir: Seq<char>) -> Seq<char> {
    if name_end(dir) == 0 && is_absolute(dir) {
        seq!['/']
    } else {
        dir.take(name_end(dir))
    }
}

/// The parent of a file in a directory is the directory.
pub proof fn lemma_parent_of_joined(dir: Seq<char>, name: Seq<char>)
    requires
        name.len() > 0,
        forall|i: int| 0 <= i < name.len() ==> #[trigger] name[i] != '/',
        name.last() != '.',
    ensures
        parent(joined(dir, name)) == Some(plain(dir)),
{
    let path = joined(dir, name);
    let n = path.len() as int;
    let start = n - name.len();
    assert(name[0] != '/');
    assert(path.last() == name.last());
    assert(name.last() == name[name.len() - 1]);
    assert(name_end(path) == n);
    assert forall|k: int| start <= k < n implies path[k] != '/' by {
        assert(path[k] == name[k - start]);
    }
    lemma_name_start_is(path, n, start);
    let rest = path.take(start);
    lemma_name_end(dir);
    if dir.len() == 0 || dir.last() == '/' {
        assert(rest =~= dir);
    } else {
        assert(rest =~= dir.push('/'));
        assert(rest.drop_last() =~= dir);
        assert(rest.take(name_end(rest)) =~= dir.take(name_end(dir)));
    }
}

/// `a` and `b` end in `s`, which holds their last component.
pub open spec fn share_end(
    a: Seq<char>,
    b: Seq<char>,
    x: Seq<char>,
    y: Seq<char>,
    s: Seq<char>,
) -> bool {
    a == x + s && b == y + s && s.len() > 0 && s[0] == '/' && name_end(s) > 1
}

/// Two paths end in the same way, so that what is joined to them has the same
/// names.
pub open spec fn end_alike(a: Seq<char>, b: Seq<char>) -> bool {
    a == b || exists|x: Seq<char>, y: Seq<char>, s: Seq<char>| share_end(a, b, x, y, s)
}

proof fn lemma_name_end_grows(s: Seq<char>, e: Seq<char>)
    ensures
        name_end(s + e) >= name_end(s),
    decreases e.len(),
{
    lemma_name_end(s);
    if e.len() == 0 {
        assert(s + e =~= s);
    } else {
        assert((s + e).drop_last() =~= s + e.drop_last());
        lemma_name_end_grows(s, e.drop_last());
    }
}

proof fn lemma_name_end_after(x: Seq<char>, s: Seq<char>)
    requires
        name_end(s) > 1,
    ensures
        name_end(x + s) == x.len() + name_end(s),
    decreases s.len(),
{
    lemma_name_end(s);
    lemma_name_end(s.drop_last());
    let t = x + s;
    assert(t.last() == s.last());
    assert(t[t.len() - 2] == s[s.len() - 2]);
    if name_end(s) != s.len() {
        assert(t.drop_last() =~= x + s.drop_last());
        lemma_name_end_after(x, s.drop_last());
    }
}

proof fn lemma_name_start_after(x: Seq<char>, s: Seq<char>, end: int)
    requires
        1 <= end <= s.len(),
        s[0] == '/',
    ensures
        name_start(x + s, x.len() + end) == x.len() + name_start(s, end),
        name_start(s, end) >= 1,
    decreases end,
{
    assert((x + s)[x.len() + end - 1] == s[end - 1]);
    if s[end - 1] != '/' {
        lemma_name_start_after(x, s, end - 1);
    }
}

/// Paths that end alike name the same file.
pub proof fn lemma_same_file_name(a: Seq<char>, b: Seq<char>)
    requires
        end_alike(a, b),
    ensures
        file_name(a) == file_name(b),
{
    if a != b {
        let (x, y, s) = choose|x: Seq<char>, y: Seq<char>, s: Seq<char>| share_end(a, b, x, y, s);
        let end = name_end(s);
        lemma_name_end(s);
        lemma_name_end_after(x, s);
        lemma_name_end_after(y, s);
        lemma_name_start_after(x, s, end);
        lemma_name_start_after(y, s, end);
        lemma_name_start(s, end);
        let start = name_start(s, end);
        assert(a.subrange(x.len() + start, x.len() + end) =~= s.subrange(start, end));
        assert(b.subrange(y.len() + start, y.len() + end) =~= s.subrange(start, end));
    }
}

/// What is joined to paths that end alike ends alike.
pub proof fn lemma_joined_alike(a: Seq<char>, b: Seq<char>, path: Seq<char>)
    requires
        end_alike(a, b),
    ensures
        end_alike(joined(a, path), joined(b, path)),
{
    if a != b && !is_absolute(path) {
        let (x, y, s) = choose|x: Seq<char>, y: Seq<char>, s: Seq<char>| share_end(a, b, x, y, s);
        assert(a.last() == s.last() && b.last() == s.last());
        let more = if s.last() == '/' {
            path
        } else {
            seq!['/'] + path
        };
        lemma_name_end_grows(s, more);
        assert(joined(a, path) =~= x + (s + more));
        assert(joined(b, path) =~= y + (s + more));
        assert(share_end(joined(a, path), joined(b, path), x, y, s + more));
    }
}

proof fn lemma_plain_end(dir: Seq<char>)
    ensures
        name_end(dir.take(name_end(dir))) == name_end(dir),
        dir.len() > 0 && dir[0] != '/' ==> name_end(dir) > 0,
        name_end(dir) > 0 ==> dir[name_end(dir) - 1] != '/',
    decreases dir.len(),
{
    lemma_name_end(dir);
    if name_end(dir) == dir.len() {
        if dir.len() > 0 {
            lemma_name_end(dir.drop_last());
        }
        assert(dir.take(name_end(dir)) =~= dir);
    } else {
        let rest = dir.drop_last();
        lemma_plain_end(rest);
        lemma_name_end(rest);
        assert(rest.take(name_end(rest)) =~= dir.take(name_end(dir)));
    }
}

/// A directory and its plain form name the same directory, and what is joined to
/// them ends alike.
pub proof fn lemma_plain_is_alike(dir: Seq<char>, name: Seq<char>)
    requires
        name.len() > 0,
        forall|i: int| 0 <= i < name.len() ==> #[trigger] name[i] != '/',
        name.last() != '.',
    ensures
        file_name(plain(dir)) == file_name(dir),
        end_alike(joined(dir, name), joined(plain(dir), name)),
        dir == plain(dir) || (dir == plain(dir).push('/') && plain(dir) != seq!['/']) ==> joined(
            dir,
            name,
        ) == joined(plain(dir), name),
{
    let e = name_end(dir);
    let p = plain(dir);
    lemma_name_end(dir);
    lemma_plain_end(dir);
    lemma_name_start(dir, e);
    if e == 0 && is_absolute(dir) {
        assert(p.drop_last() =~= Seq::empty());
        assert(name_end(p) == name_end(p.drop_last()));
        assert(last_component(p) =~= last_component(dir));
    } else {
        lemma_name_start_is(p, e, name_start(dir, e));
        assert(last_component(p) =~= last_component(dir));
    }
    assert(name[0] != '/');
    if dir.len() > 0 {
        let s = seq!['/'] + name;
        assert(s.last() == name.last());
        assert(name_end(s) == s.len());
        let x = if dir.last() == '/' {
            dir.drop_last()
        } else {
            dir
        };
        let y = if p.last() == '/' {
            p.drop_last()
        } else {
            p
        };
        assert(p.len() > 0);
        assert(joined(dir, name) =~= x + s);
        assert(joined(p, name) =~= y + s);
        assert(share_end(joined(dir, name), joined(p, name), x, y, s));
        if p.last() == '/' {
            assert(p =~= seq!['/']);
        }
    } else {
        assert(p =~= dir);
    }
}

/// A file name has a stem, and the stem is not empty.
pub proof fn law_stem_is_not_empty(path: Seq<char>)
    requires
        file_name(path) is Some,
    ensures
        file_stem(path) matches Some(stem) && stem.len() > 0,
{
    let name = last_component(path);
    lemma_dot(name, name.len() as int);
}

proof fn lemma_name_start(path: Seq<char>, end: int)
    requires
        0 <= end <= path.len(),
    ensures
        0 <= name_start(path, end) <= end,
        forall|k: int| name_start(path, end) <= k < end ==> path[k] != '/',
        name_start(path, end) > 0 ==> path[name_start(path, end) - 1] == '/',
    decreases end,
{
    if end > 0 && path[end - 1] != '/' {
        lemma_name_start(path, end - 1);
    }
}

proof fn lemma_name_start_is(path: Seq<char>, end: int, start: int)
    requires
        0 <= start <= end <= path.len(),
        forall|k: int| start <= k < end ==> path[k] != '/',
        start > 0 ==> path[start - 1] == '/',
    ensures
        name_start(path, end) == start,
    decreases end - start,
{
    if start < end {
        lemma_name_start_is(path, end - 1, start);
    }
}

proof fn lemma_dot(name: Seq<char>, from: int)
    requires
        0 <= from <= name.len(),
    ensures
        dot(name, from) matches Some(i) ==> 0 < i < from,
    decreases from,
{
    if from > 1 && name[from - 1] != '.' {
        lemma_dot(name, from - 1);
    }
}

proof fn lemma_dot_is(name: Seq<char>, from: int, i: int)
    requires
        0 < i < from <= name.len(),
        name[i] == '.',
        forall|k: int| i < k < from ==> name[k] != '.',
    ensures
        dot(name, from) == Some(i),
    decreases from - i,
{
    if i < from - 1 {
        lemma_dot_is(name, from - 1, i);
    }
}

/// An absolute path is taken as it stands, and any other within the directory: the
/// directory comes first, the path last, and one separator between them, unless the
/// directory ends in one or is empty.
pub proof fn law_paths_are_taken_from_a_directory(dir: Seq<char>, path: Seq<char>)
    ensures
        path.len() > 0 && path[0] == '/' ==> joined(dir, path) == path,
        !is_absolute(path) && dir.len() > 0 && dir.last() != '/' ==> joined(dir, path) == dir
            + seq!['/'] + path,
        !is_absolute(path) && dir.len() > 0 && dir.last() == '/' ==> joined(dir, path) == dir
            + path,
        dir.len() == 0 ==> joined(dir, path) == path,
{
    assert(dir.push('/') + path =~= dir + seq!['/'] + path);
    if dir.len() == 0 {
        assert(dir + path =~= path);
    }
}

/// A file in a directory has the name it was given there.
pub proof fn law_file_in_a_directory(dir: Seq<char>, name: Seq<char>)
    requires
        name.len() > 0,
        forall|i: int| 0 <= i < name.len() ==> #[trigger] name[i] != '/',
        name != "."@,
        name != ".."@,
    ensures
        file_name(joined(dir, name)) == Some(name),
{
    lemma_one_dot();
    let path = joined(dir, name);
    let n = path.len() as int;
    let start = n - name.len();
    assert(name[0] != '/');
    assert(path.last() == name.last());
    assert(name.last() == name[name.len() - 1]);
    assert forall|k: int| start <= k < n implies path[k] != '/' by {
        assert(path[k] == name[k - start]);
    }
    if name.len() == 1 && name[0] == '.' {
        assert(name =~= seq!['.']);
    }
    if name.len() >= 2 {
        assert(path[n - 2] == name[name.len() - 2]);
    }
    assert(name_end(path) == n);
    lemma_name_start_is(path, n, start);
    assert(last_component(path) =~= name);
}

/// A separator behind a path, or a point that names its directory, changes nothing
/// of what it names.
pub proof fn law_what_does_not_count_at_the_end(path: Seq<char>)
    ensures
        file_name(path.push('/')) == file_name(path),
        file_name(path.push('/').push('.')) == file_name(path),
{
    let one = path.push('/');
    let two = one.push('.');
    assert(one.drop_last() =~= path);
    assert(two.drop_last() =~= one);
    assert(two[two.len() - 2] == '/');
    assert(name_end(one) == name_end(path));
    assert(name_end(two) == name_end(path));
    lemma_name_end(path);
    let end = name_end(path);
    lemma_name_start(path, end);
    lemma_name_start_is(one, end, name_start(path, end));
    lemma_name_start_is(two, end, name_start(path, end));
    assert(last_component(one) =~= last_component(path));
    assert(last_component(two) =~= last_component(path));
}

/// A file name is its stem, a point and its extension; where it has no extension it
/// is its stem. An extension holds no point, and no point but the first character
/// stands in a name without one.
pub proof fn law_stem_and_extension_make_the_name(path: Seq<char>, name: Seq<char>)
    requires
        file_name(path) == Some(name),
    ensures
        extension(path) matches Some(ext) ==> (file_stem(path) matches Some(stem) && stem.len() > 0
            && name == stem + seq!['.'] + ext && !ext.contains('.')),
        extension(path) is None ==> file_stem(path) == Some(name) && forall|i: int|
            1 <= i < name.len() ==> #[trigger] name[i] != '.',
{
    lemma_last_dot(name, name.len() as int);
    if let Some(i) = dot(name, name.len() as int) {
        let ext = name.skip(i + 1);
        assert(name =~= name.take(i) + seq!['.'] + ext);
        if ext.contains('.') {
            let k = choose|k: int| 0 <= k < ext.len() && ext[k] == '.';
            assert(name[i + 1 + k] == '.');
        }
    }
}

proof fn lemma_last_dot(name: Seq<char>, from: int)
    requires
        0 <= from <= name.len(),
    ensures
        dot(name, from) matches Some(i) ==> 0 < i < from && name[i] == '.' && forall|k: int|
            i < k < from ==> #[trigger] name[k] != '.',
        dot(name, from) is None ==> forall|k: int| 1 <= k < from ==> #[trigger] name[k] != '.',
    decreases from,
{
    if from > 1 && name[from - 1] != '.' {
        lemma_last_dot(name, from - 1);
    }
}

/// A path that names no file has neither a stem nor an extension, and keeps none.
pub proof fn law_paths_without_a_file(path: Seq<char>, ext: Seq<char>)
    requires
        file_name(path) is None,
    ensures
        file_stem(path) is None,
        extension(path) is None,
        with_extension(path, ext) == path,
{
}

/// A path that ends in the directory above names no file, nor does one of separators
/// alone, an empty one, or a single point.
pub proof fn law_paths_that_name_no_file(dir: Seq<char>, n: nat)
    ensures
        file_name(dir.push('/') + seq!['.', '.']) is None,
        file_name(seq!['.', '.']) is None,
        file_name(Seq::new(n, |i: int| '/')) is None,
        file_name(seq!['.']) is None,
{
    lemma_one_dot();
    reveal_strlit("..");
    assert(".."@ =~= seq!['.', '.']);
    lemma_two_dots(dir.push('/'));
    lemma_two_dots(Seq::empty());
    assert(Seq::empty() + seq!['.', '.'] =~= seq!['.', '.']);
    lemma_separators_end(n);
    let one = seq!['.'];
    assert(name_end(one) == 1);
    lemma_name_start_is(one, 1, 0);
    assert(last_component(one) =~= one);
}

proof fn lemma_two_dots(dir: Seq<char>)
    requires
        dir.len() > 0 ==> dir.last() == '/',
    ensures
        last_component(dir + seq!['.', '.']) == seq!['.', '.'],
{
    let path = dir + seq!['.', '.'];
    let n = path.len() as int;
    assert(path[n - 1] == '.' && path[n - 2] == '.');
    assert(name_end(path) == n);
    if dir.len() > 0 {
        assert(path[n - 3] == dir.last());
    }
    lemma_name_start_is(path, n, n - 2);
    assert(last_component(path) =~= seq!['.', '.']);
}

proof fn lemma_separators_end(n: nat)
    ensures
        name_end(Seq::new(n, |i: int| '/')) == 0,
    decreases n,
{
    let s = Seq::new(n, |i: int| '/');
    if n > 0 {
        assert(s.drop_last() =~= Seq::new((n - 1) as nat, |i: int| '/'));
        lemma_separators_end((n - 1) as nat);
    }
}

} // verus!
