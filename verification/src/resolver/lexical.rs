//! Paths as text.
//!
//! A path is a string whose components are separated by `/`. The functions
//! here take paths apart, join them and bring them into a normal form
//! without consulting any file system.

use vstd::prelude::*;
use crate::text::{chars_of, string_of};

verus! {

/// The character sequences of a list of character vectors.
pub open spec fn rows(v: Seq<Vec<char>>) -> Seq<Seq<char>> {
    Seq::new(v.len(), |i: int| v[i]@)
}

/// Whether the path starts at the root.
pub open spec fn is_absolute(p: Seq<char>) -> bool {
    p.len() > 0 && p[0] == '/'
}

/// The position of the last `/` before position `n`, or -1.
pub open spec fn last_slash(p: Seq<char>, n: int) -> int
    decreases n,
{
    if n <= 0 || n > p.len() {
        -1
    } else if p[n - 1] == '/' {
        n - 1
    } else {
        last_slash(p, n - 1)
    }
}

/// The part of a path before its last `/`: the directory that holds it.
/// A path without `/` has the empty directory part; directly under the
/// root the directory part is `/`.
pub open spec fn parent_of(p: Seq<char>) -> Seq<char> {
    let k = last_slash(p, p.len() as int);
    if k < 0 {
        Seq::empty()
    } else if k == 0 {
        seq!['/']
    } else {
        p.subrange(0, k)
    }
}

/// The part of a path after its last `/`.
pub open spec fn name_of(p: Seq<char>) -> Seq<char> {
    p.subrange(last_slash(p, p.len() as int) + 1, p.len() as int)
}

/// The path `rel` taken from the directory `dir`. An absolute `rel` stands
/// for itself.
pub open spec fn join(dir: Seq<char>, rel: Seq<char>) -> Seq<char> {
    if is_absolute(rel) || dir.len() == 0 {
        rel
    } else if dir.last() == '/' {
        dir + rel
    } else {
        dir + seq!['/'] + rel
    }
}

pub open spec fn is_dot(c: Seq<char>) -> bool {
    c.len() == 1 && c[0] == '.'
}

pub open spec fn is_dotdot(c: Seq<char>) -> bool {
    c.len() == 2 && c[0] == '.' && c[1] == '.'
}

/// The components of a normal path after one more component is read:
/// empty components and `.` change nothing, `..` leaves the last directory
/// (at the root it stays there; in a relative path that is already at its
/// start it is kept), any other component is entered.
pub open spec fn with_component(stack: Seq<Seq<char>>, comp: Seq<char>, absolute: bool) -> Seq<
    Seq<char>,
> {
    if comp.len() == 0 || is_dot(comp) {
        stack
    } else if is_dotdot(comp) {
        if stack.len() > 0 && !is_dotdot(stack.last()) {
            stack.drop_last()
        } else if absolute {
            stack
        } else {
            stack.push(comp)
        }
    } else {
        stack.push(comp)
    }
}

/// The components of the normal form of `p`, read from position `i` on
/// with `stack` already read and `cur` the component being read.
pub open spec fn fold_components(
    p: Seq<char>,
    i: int,
    stack: Seq<Seq<char>>,
    cur: Seq<char>,
    absolute: bool,
) -> Seq<Seq<char>>
    decreases p.len() - i,
{
    if i < 0 || i >= p.len() {
        with_component(stack, cur, absolute)
    } else if p[i] == '/' {
        fold_components(p, i + 1, with_component(stack, cur, absolute), Seq::empty(), absolute)
    } else {
        fold_components(p, i + 1, stack, cur.push(p[i]), absolute)
    }
}

/// The components written one after the other with `/` between them.
pub open spec fn joined(stack: Seq<Seq<char>>) -> Seq<char>
    decreases stack.len(),
{
    if stack.len() == 0 {
        Seq::empty()
    } else if stack.len() == 1 {
        stack[0]
    } else {
        joined(stack.drop_last()) + seq!['/'] + stack.last()
    }
}

/// The normal form of a path: no empty component, no `.`, and no `..`
/// behind a directory. An absolute path stays absolute.
pub open spec fn normalized(p: Seq<char>) -> Seq<char> {
    let absolute = is_absolute(p);
    let stack = fold_components(p, 0, Seq::empty(), Seq::empty(), absolute);
    if absolute {
        seq!['/'] + joined(stack)
    } else {
        joined(stack)
    }
}

/// The root without a `/` at its end.
pub open spec fn trimmed_root(root: Seq<char>) -> Seq<char> {
    if root.len() > 0 && root.last() == '/' {
        root.drop_last()
    } else {
        root
    }
}

/// Whether `path` lies under the directory `root`, or is it.
pub open spec fn is_under(path: Seq<char>, root: Seq<char>) -> bool {
    let r = trimmed_root(root);
    root.len() > 0 && (path == r || (r.len() < path.len() && path.subrange(0, r.len() as int) == r
        && path[r.len() as int] == '/'))
}

/// The path relative to `root`, where it lies under it; else the path
/// itself.
pub open spec fn relative_to(path: Seq<char>, root: Seq<char>) -> Seq<char> {
    let r = trimmed_root(root);
    if !is_under(path, root) {
        path
    } else if path == r {
        Seq::empty()
    } else {
        path.subrange(r.len() as int + 1, path.len() as int)
    }
}

/// A text with every `\` replaced by `/`.
pub open spec fn forward_slashes(p: Seq<char>) -> Seq<char> {
    Seq::new(
        p.len(),
        |i: int|
            if p[i] == '\\' {
                '/'
            } else {
                p[i]
            },
    )
}

/// The identifier of a file: its path relative to the project root, with
/// forward slashes.
pub open spec fn file_id(path: Seq<char>, root: Seq<char>) -> Seq<char> {
    forward_slashes(relative_to(path, root))
}

/// Whether the text ends with the given suffix.
pub open spec fn ends_with(p: Seq<char>, suffix: Seq<char>) -> bool {
    p.len() >= suffix.len() && p.subrange(p.len() - suffix.len(), p.len() as int) == suffix
}

/// Whether the file name of the path has the given extension: it ends in
/// a dot and the extension, and something stands before the dot.
pub open spec fn has_extension(p: Seq<char>, ext: Seq<char>) -> bool {
    let name = name_of(p);
    name.len() > ext.len() + 1 && ends_with(name, seq!['.'] + ext)
}

/// Whether the path names a stylesheet: a file with extension `scss` or
/// `sass`.
pub open spec fn is_stylesheet(p: Seq<char>) -> bool {
    has_extension(p, seq!['s', 'c', 's', 's']) || has_extension(p, seq!['s', 'a', 's', 's'])
}

/// Finds the last `/` of a path.
fn find_last_slash(p: &[char]) -> (r: Option<usize>)
    ensures
        r is None ==> last_slash(p@, p@.len() as int) == -1,
        r matches Some(k) ==> k == last_slash(p@, p@.len() as int) && k < p@.len(),
{
    let mut n: usize = p.len();
    while n > 0
        invariant
            n <= p@.len(),
            last_slash(p@, p@.len() as int) == last_slash(p@, n as int),
        decreases n,
    {
        if p[n - 1] == '/' {
            return Some(n - 1);
        }
        n -= 1;
    }
    None
}

/// The directory part of a path.
pub fn parent(path: &str) -> (r: String)
    ensures
        r@ == parent_of(path@),
{
    let p = chars_of(path);
    match find_last_slash(p.as_slice()) {
        None => String::new(),
        Some(k) => {
            if k == 0 {
                let mut r = String::new();
                r.push('/');
                r
            } else {
                string_of(p.as_slice(), 0, k)
            }
        },
    }
}

/// The directory part and the name part of a path.
pub fn split(path: &str) -> (r: (String, String))
    ensures
        r.0@ == parent_of(path@),
        r.1@ == name_of(path@),
{
    let p = chars_of(path);
    let n = p.len();
    match find_last_slash(p.as_slice()) {
        None => (String::new(), string_of(p.as_slice(), 0, n)),
        Some(k) => {
            let name = string_of(p.as_slice(), k + 1, n);
            if k == 0 {
                let mut r = String::new();
                r.push('/');
                (r, name)
            } else {
                (string_of(p.as_slice(), 0, k), name)
            }
        },
    }
}

/// Appends the characters of `s` to `out`.
pub fn push_chars(out: &mut String, s: &[char])
    ensures
        final(out)@ == old(out)@ + s@,
{
    let mut i: usize = 0;
    while i < s.len()
        invariant
            i <= s@.len(),
            out@ == old(out)@ + s@.subrange(0, i as int),
        decreases s@.len() - i,
    {
        out.push(s[i]);
        i += 1;
    }
    assert(s@.subrange(0, i as int) =~= s@);
}

/// Whether the path starts at the root.
pub fn absolute(path: &str) -> (r: bool)
    ensures
        r == is_absolute(path@),
{
    path.unicode_len() > 0 && path.get_char(0) == '/'
}

/// Joins a path to a directory.
pub fn join_paths(dir: &str, rel: &str) -> (r: String)
    ensures
        r@ == join(dir@, rel@),
{
    let d = chars_of(dir);
    let x = chars_of(rel);
    let mut r = String::new();
    if (x.len() > 0 && x[0] == '/') || d.len() == 0 {
        push_chars(&mut r, x.as_slice());
    } else {
        push_chars(&mut r, d.as_slice());
        if d[d.len() - 1] != '/' {
            r.push('/');
        }
        push_chars(&mut r, x.as_slice());
    }
    r
}

fn push_component(stack: &mut Vec<Vec<char>>, comp: Vec<char>, absolute: bool)
    ensures
        rows(final(stack)@) == with_component(rows(old(stack)@), comp@, absolute),
{
    let n = comp.len();
    if n == 0 || (n == 1 && comp[0] == '.') {
    } else if n == 2 && comp[0] == '.' && comp[1] == '.' {
        let m = stack.len();
        if m > 0 && !(stack[m - 1].len() == 2 && stack[m - 1][0] == '.' && stack[m - 1][1] == '.') {
            stack.pop();
            assert(rows(stack@) =~= rows(old(stack)@).drop_last());
        } else if absolute {
        } else {
            stack.push(comp);
            assert(rows(stack@) =~= rows(old(stack)@).push(comp@));
        }
    } else {
        stack.push(comp);
        assert(rows(stack@) =~= rows(old(stack)@).push(comp@));
    }
}

fn render(stack: &Vec<Vec<char>>, absolute: bool) -> (r: String)
    ensures
        r@ == if absolute {
            seq!['/'] + joined(rows(stack@))
        } else {
            joined(rows(stack@))
        },
{
    let mut r = String::new();
    if absolute {
        r.push('/');
    }
    let ghost head = r@;
    let mut i: usize = 0;
    assert(rows(stack@).subrange(0, 0) =~= Seq::<Seq<char>>::empty());
    while i < stack.len()
        invariant
            i <= stack@.len(),
            r@ == head + joined(rows(stack@).subrange(0, i as int)),
        decreases stack@.len() - i,
    {
        proof {
            let done = rows(stack@).subrange(0, i as int);
            let next = rows(stack@).subrange(0, i as int + 1);
            assert(next.drop_last() =~= done);
            assert(next.last() == stack@[i as int]@);
        }
        if i > 0 {
            r.push('/');
        }
        push_chars(&mut r, stack[i].as_slice());
        proof {
            let done = rows(stack@).subrange(0, i as int);
            let next = rows(stack@).subrange(0, i as int + 1);
            if i == 0 {
                assert(joined(done) =~= Seq::<char>::empty());
                assert(r@ =~= head + joined(next));
            } else {
                assert(joined(next) == joined(done) + seq!['/'] + next.last());
                assert(r@ =~= head + joined(next));
            }
        }
        i += 1;
    }
    assert(rows(stack@).subrange(0, i as int) =~= rows(stack@));
    proof {
        if !absolute {
            assert(head + joined(rows(stack@)) =~= joined(rows(stack@)));
        }
    }
    r
}

/// Brings a path into its normal form.
pub fn normalize(path: &str) -> (r: String)
    ensures
        r@ == normalized(path@),
{
    let p = chars_of(path);
    let absolute = p.len() > 0 && p[0] == '/';
    let mut stack: Vec<Vec<char>> = Vec::new();
    let mut cur: Vec<char> = Vec::new();
    let mut i: usize = 0;
    assert(rows(stack@) =~= Seq::<Seq<char>>::empty());
    while i < p.len()
        invariant
            i <= p@.len(),
            absolute == is_absolute(p@),
            fold_components(p@, 0, Seq::empty(), Seq::empty(), absolute) == fold_components(
                p@,
                i as int,
                rows(stack@),
                cur@,
                absolute,
            ),
        decreases p@.len() - i,
    {
        if p[i] == '/' {
            push_component(&mut stack, cur, absolute);
            cur = Vec::new();
        } else {
            cur.push(p[i]);
        }
        i += 1;
    }
    push_component(&mut stack, cur, absolute);
    render(&stack, absolute)
}

/// Computes the identifier of a file from its path and the project root.
pub fn get_file_id(path: &str, root: &str) -> (r: String)
    ensures
        r@ == file_id(path@, root@),
{
    let p = chars_of(path);
    let full = chars_of(root);
    let n = if full.len() > 0 && full[full.len() - 1] == '/' {
        full.len() - 1
    } else {
        full.len()
    };
    let ghost r0 = trimmed_root(root@);
    assert(r0 =~= full@.subrange(0, n as int));
    // Compare the root with the start of the path.
    let mut under = full.len() > 0 && n <= p.len();
    let mut k: usize = 0;
    while under && k < n
        invariant
            k <= n,
            n <= full@.len(),
            under ==> n <= p@.len(),
            under ==> full@.len() > 0,
            under ==> p@.subrange(0, k as int) == full@.subrange(0, k as int),
            !under ==> !is_under(p@, root@),
            r0 == full@.subrange(0, n as int),
            r0 == trimmed_root(root@),
            full@ == root@,
        decreases n - k + if under { 1int } else { 0int },
    {
        if p[k] != full[k] {
            under = false;
            proof {
                if p@.len() >= n {
                    assert(p@.subrange(0, n as int)[k as int] != r0[k as int]);
                }
                if p@ == r0 {
                    assert(p@[k as int] == r0[k as int]);
                }
            }
        } else {
            proof {
                assert(p@.subrange(0, k as int + 1) =~= p@.subrange(0, k as int).push(p@[k as int]));
                assert(full@.subrange(0, k as int + 1) =~= full@.subrange(0, k as int).push(
                    full@[k as int],
                ));
            }
            k += 1;
        }
    }
    let start = if !under {
        0
    } else if p.len() == n {
        assert(p@ =~= p@.subrange(0, n as int));
        n
    } else if p[n] == '/' {
        n + 1
    } else {
        0
    };
    let mut r = String::new();
    let mut i: usize = start;
    let ghost rel = relative_to(path@, root@);
    assert(rel =~= p@.subrange(start as int, p@.len() as int)) by {
        assert(p@.subrange(0, p@.len() as int) =~= p@);
        if under {
            assert(p@.subrange(0, n as int) == r0);
            if p@.len() == n {
                assert(p@ =~= r0);
            } else {
                assert(p@ != r0);
            }
        }
    }
    while i < p.len()
        invariant
            start <= i <= p@.len(),
            rel == p@.subrange(start as int, p@.len() as int),
            r@ == forward_slashes(rel).subrange(0, i - start),
        decreases p@.len() - i,
    {
        let c = if p[i] == '\\' {
            '/'
        } else {
            p[i]
        };
        r.push(c);
        assert(r@ =~= forward_slashes(rel).subrange(0, i + 1 - start));
        i += 1;
    }
    assert(r@ =~= forward_slashes(rel));
    r
}

/// Whether the path lies under the directory `root`, or is it.
pub fn under(path: &str, root: &str) -> (r: bool)
    ensures
        r == is_under(path@, root@),
{
    let p = chars_of(path);
    let full = chars_of(root);
    if full.len() == 0 {
        return false;
    }
    let n = if full[full.len() - 1] == '/' {
        full.len() - 1
    } else {
        full.len()
    };
    let ghost r0 = trimmed_root(root@);
    assert(r0 =~= full@.subrange(0, n as int));
    if p.len() < n {
        proof {
            if p@ == r0 {
                assert(p@.len() == r0.len());
            }
        }
        return false;
    }
    let mut k: usize = 0;
    while k < n
        invariant
            k <= n <= p@.len(),
            n <= full@.len(),
            p@ == path@,
            full@ == root@,
            root@.len() > 0,
            r0 == trimmed_root(root@),
            p@.subrange(0, k as int) == full@.subrange(0, k as int),
            r0 == full@.subrange(0, n as int),
        decreases n - k,
    {
        if p[k] != full[k] {
            proof {
                assert(p@.subrange(0, n as int)[k as int] != r0[k as int]);
                if p@ == r0 {
                    assert(p@[k as int] == r0[k as int]);
                }
            }
            return false;
        }
        proof {
            assert(p@.subrange(0, k as int + 1) =~= p@.subrange(0, k as int).push(p@[k as int]));
            assert(full@.subrange(0, k as int + 1) =~= full@.subrange(0, k as int).push(
                full@[k as int],
            ));
        }
        k += 1;
    }
    if p.len() == n {
        assert(p@ =~= p@.subrange(0, n as int));
        true
    } else {
        proof {
            assert(p@ != r0);
        }
        p[n] == '/'
    }
}

fn suffix_is(p: &[char], end: usize, a: char, b: char, c: char, d: char) -> (r: bool)
    requires
        end <= p@.len(),
    ensures
        r == (end >= 5 && p@.subrange(end - 5, end as int) == seq!['.', a, b, c, d]),
{
    if end >= 5 {
        let r = p[end - 5] == '.' && p[end - 4] == a && p[end - 3] == b && p[end - 2] == c && p[end
            - 1] == d;
        proof {
            let t = p@.subrange(end - 5, end as int);
            if r {
                assert(t =~= seq!['.', a, b, c, d]);
            } else {
                if t == seq!['.', a, b, c, d] {
                    assert(t[0] == '.' && t[1] == a && t[2] == b && t[3] == c && t[4] == d);
                }
            }
        }
        r
    } else {
        false
    }
}

/// Whether the path names a stylesheet.
pub fn stylesheet(path: &str) -> (r: bool)
    ensures
        r == is_stylesheet(path@),
{
    let p = chars_of(path);
    let n = p.len();
    let start = match find_last_slash(p.as_slice()) {
        None => 0,
        Some(k) => k + 1,
    };
    let ghost name = name_of(path@);
    proof {
        assert(name == p@.subrange(start as int, n as int));
        let scss = seq!['s', 'c', 's', 's'];
        let sass = seq!['s', 'a', 's', 's'];
        assert(seq!['.'] + scss =~= seq!['.', 's', 'c', 's', 's']);
        assert(seq!['.'] + sass =~= seq!['.', 's', 'a', 's', 's']);
        if name.len() >= 5 {
            assert(name.subrange(name.len() - 5, name.len() as int) =~= p@.subrange(n - 5, n as int));
        }
    }
    if n - start > 5 {
        suffix_is(p.as_slice(), n, 's', 'c', 's', 's') || suffix_is(
            p.as_slice(),
            n,
            's',
            'a',
            's',
            's',
        )
    } else {
        false
    }
}

} // verus!
