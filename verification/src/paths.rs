//! Repository-relative paths: their components, normal form, parents and
//! joins, and the names of the components of a repository.
use vstd::prelude::*;

use crate::order::views_of;
use crate::text::{
    after_last, chars_after_last, chars_eq, chars_of, chars_slice, find_last, has_char, join,
    join_chars, last_index, lemma_last_index, split, split_pieces, starts_with, string_from_chars,
    views,
};

verus! {

pub open spec fn dot() -> Seq<char> {
    seq!['.']
}

pub open spec fn dot_dot() -> Seq<char> {
    seq!['.', '.']
}

/// The pieces of `pieces` that name something: not empty and not `.`.
pub open spec fn named(pieces: Seq<Seq<char>>) -> Seq<Seq<char>>
    decreases pieces.len(),
{
    if pieces.len() == 0 {
        Seq::empty()
    } else if pieces.last().len() == 0 || pieces.last() == dot() {
        named(pieces.drop_last())
    } else {
        named(pieces.drop_last()).push(pieces.last())
    }
}

/// The components of a path, as `Path::components` yields them, less the
/// root and the current directory: repeated separators and `.` fall away.
pub open spec fn components(path: Seq<char>) -> Seq<Seq<char>> {
    named(split(path, '/'))
}

/// Resolves `..` against the components before it; a `..` at the top is
/// dropped.
pub open spec fn resolve(parts: Seq<Seq<char>>) -> Seq<Seq<char>>
    decreases parts.len(),
{
    if parts.len() == 0 {
        Seq::empty()
    } else {
        let prev = resolve(parts.drop_last());
        if parts.last() == dot_dot() {
            if prev.len() > 0 {
                prev.drop_last()
            } else {
                prev
            }
        } else {
            prev.push(parts.last())
        }
    }
}

/// The normal form of a path: its resolved components joined by `/`.
pub open spec fn normalised(path: Seq<char>) -> Seq<char> {
    join(resolve(components(path)), seq!['/'])
}

/// The components of the parent of a path: all but the last.
pub open spec fn parent_components(path: Seq<char>) -> Seq<Seq<char>> {
    let c = components(path);
    if c.len() == 0 {
        c
    } else {
        c.drop_last()
    }
}

fn named_pieces(pieces: &Vec<Vec<char>>) -> (r: Vec<Vec<char>>)
    ensures
        views(r@) == named(views(pieces@)),
{
    let mut out: Vec<Vec<char>> = Vec::new();
    let mut i: usize = 0;
    while i < pieces.len()
        invariant
            i <= pieces@.len(),
            views(out@) == named(views(pieces@).take(i as int)),
        decreases pieces@.len() - i,
    {
        assert(views(pieces@).take(i + 1).drop_last() =~= views(pieces@).take(i as int));
        assert(views(pieces@).take(i + 1).last() == pieces@[i as int]@);
        let p = &pieces[i];
        let is_dot = p.len() == 1 && p[0] == '.';
        assert(is_dot == (p@ == dot())) by {
            if p@.len() == 1 && p@[0] == '.' {
                assert(p@ =~= dot());
            }
        }
        if p.len() != 0 && !is_dot {
            let ghost before = out@;
            out.push(p.clone());
            assert(views(out@) =~= views(before).push(p@));
        }
        i = i + 1;
    }
    assert(views(pieces@).take(i as int) =~= views(pieces@));
    out
}

pub fn path_components_of(path: &[char]) -> (r: Vec<Vec<char>>)
    ensures
        views(r@) == components(path@),
{
    let pieces = split_pieces(path, '/');
    named_pieces(&pieces)
}

pub fn resolve_parts_of(parts: &Vec<Vec<char>>) -> (r: Vec<Vec<char>>)
    ensures
        views(r@) == resolve(views(parts@)),
{
    let mut out: Vec<Vec<char>> = Vec::new();
    let mut i: usize = 0;
    while i < parts.len()
        invariant
            i <= parts@.len(),
            views(out@) == resolve(views(parts@).take(i as int)),
        decreases parts@.len() - i,
    {
        assert(views(parts@).take(i + 1).drop_last() =~= views(parts@).take(i as int));
        assert(views(parts@).take(i + 1).last() == parts@[i as int]@);
        let p = &parts[i];
        let is_up = p.len() == 2 && p[0] == '.' && p[1] == '.';
        assert(is_up == (p@ == dot_dot())) by {
            if p@.len() == 2 && p@[0] == '.' && p@[1] == '.' {
                assert(p@ =~= dot_dot());
            }
        }
        let ghost before = out@;
        if is_up {
            if out.len() > 0 {
                out.pop();
                assert(views(out@) =~= views(before).drop_last());
            }
        } else {
            out.push(p.clone());
            assert(views(out@) =~= views(before).push(p@));
        }
        i = i + 1;
    }
    assert(views(parts@).take(i as int) =~= views(parts@));
    out
}

fn slash() -> (r: Vec<char>)
    ensures
        r@ == seq!['/'],
{
    let mut s = Vec::new();
    s.push('/');
    assert(s@ =~= seq!['/']);
    s
}

/// The normal form of a path.
pub fn normalise_repo_path(path: &str) -> (r: String)
    ensures
        r@ == normalised(path@),
{
    let pc = chars_of(path);
    let comps = path_components_of(pc.as_slice());
    let resolved = resolve_parts_of(&comps);
    let joined = join_chars(&resolved, slash().as_slice());
    string_from_chars(joined.as_slice())
}

/// The directory of a configuration file, or `.` at the top.
pub open spec fn config_root_of(config_path: Seq<char>) -> Seq<char> {
    let p = join(resolve(parent_components(config_path)), seq!['/']);
    if p.len() == 0 {
        dot()
    } else {
        p
    }
}

pub fn config_root(config_path: &str) -> (r: String)
    ensures
        r@ == config_root_of(config_path@),
{
    let pc = chars_of(config_path);
    let mut comps = path_components_of(pc.as_slice());
    if comps.len() > 0 {
        let ghost before = comps@;
        comps.pop();
        assert(views(comps@) =~= views(before).drop_last());
    }
    let resolved = resolve_parts_of(&comps);
    let joined = join_chars(&resolved, slash().as_slice());
    if joined.len() == 0 {
        let r = chars_of(".");
        assert(r@ =~= dot()) by {
            reveal_strlit(".");
        }
        return string_from_chars(r.as_slice());
    }
    string_from_chars(joined.as_slice())
}

/// `s` without every leading `./`.
pub open spec fn trim_leading_dot_slash(s: Seq<char>) -> Seq<char>
    decreases s.len(),
{
    if s.len() >= 2 && s[0] == '.' && s[1] == '/' {
        trim_leading_dot_slash(s.skip(2))
    } else {
        s
    }
}

pub fn trim_dot_slash_of(s: &[char]) -> (r: Vec<char>)
    ensures
        r@ == trim_leading_dot_slash(s@),
{
    let mut i: usize = 0;
    assert(s@.skip(0) =~= s@);
    while s.len() - i >= 2 && s[i] == '.' && s[i + 1] == '/'
        invariant
            i <= s@.len(),
            trim_leading_dot_slash(s@) == trim_leading_dot_slash(s@.skip(i as int)),
        decreases s@.len() - i,
    {
        assert(s@.skip(i as int).skip(2) =~= s@.skip(i + 2));
        i = i + 2;
    }
    let r = chars_slice(s, i, s.len());
    assert(r@ =~= s@.skip(i as int));
    r
}

/// `child` resolved against the directory of `config_path`: an absolute
/// child stands alone.
pub open spec fn relative_join_of(config_path: Seq<char>, child_path: Seq<char>) -> Seq<char> {
    let child = trim_leading_dot_slash(child_path);
    let base = if starts_with(child, seq!['/']) {
        Seq::empty()
    } else {
        parent_components(config_path)
    };
    join(resolve(base + components(child)), seq!['/'])
}

pub fn repo_relative_join(config_path: &str, child_path: &str) -> (r: String)
    ensures
        r@ == relative_join_of(config_path@, child_path@),
{
    let cc = chars_of(child_path);
    let child = trim_dot_slash_of(cc.as_slice());
    let absolute = child.len() > 0 && child[0] == '/';
    assert(absolute == starts_with(child@, seq!['/'])) by {
        if child@.len() > 0 {
            if child@[0] == '/' {
                assert(child@.subrange(0, 1) =~= seq!['/']);
            } else {
                assert(child@.subrange(0, 1)[0] != seq!['/'][0]);
            }
        }
    }
    let mut parts: Vec<Vec<char>> = Vec::new();
    if !absolute {
        let pc = chars_of(config_path);
        parts = path_components_of(pc.as_slice());
        if parts.len() > 0 {
            let ghost before = parts@;
            parts.pop();
            assert(views(parts@) =~= views(before).drop_last());
        }
    }
    let ghost base = views(parts@);
    assert(absolute ==> base =~= Seq::<Seq<char>>::empty());
    let child_parts = path_components_of(child.as_slice());
    let mut i: usize = 0;
    while i < child_parts.len()
        invariant
            i <= child_parts@.len(),
            views(parts@) == base + views(child_parts@).take(i as int),
        decreases child_parts@.len() - i,
    {
        let ghost before = parts@;
        parts.push(child_parts[i].clone());
        assert(views(parts@) =~= views(before).push(child_parts@[i as int]@));
        assert(views(child_parts@).take(i + 1) =~= views(child_parts@).take(i as int).push(child_parts@[i as int]@));
        i = i + 1;
    }
    assert(views(child_parts@).take(i as int) =~= views(child_parts@));
    let resolved = resolve_parts_of(&parts);
    let joined = join_chars(&resolved, slash().as_slice());
    string_from_chars(joined.as_slice())
}

/// `path` below `root`, without the separator; all of it when the root is
/// `.`.
pub open spec fn relative_to_root_of(root: Seq<char>, path: Seq<char>) -> Option<Seq<char>> {
    if root == dot() {
        Some(path)
    } else if starts_with(path, root + seq!['/']) {
        Some(path.skip(root.len() as int + 1))
    } else {
        None
    }
}

pub fn relative_to_root(root: &str, path: &str) -> (r: Option<String>)
    ensures
        match r {
            Some(s) => relative_to_root_of(root@, path@) == Some(s@),
            None => relative_to_root_of(root@, path@) is None,
        },
{
    let rc = chars_of(root);
    let pc = chars_of(path);
    if rc.len() == 1 && rc[0] == '.' {
        assert(rc@ =~= dot());
        return Some(string_from_chars(pc.as_slice()));
    }
    assert(rc@ != dot()) by {
        if rc@ == dot() {
            assert(rc@.len() == 1 && rc@[0] == '.');
        }
    }
    let n = rc.len();
    if pc.len() > n && crate::text::chars_starts_with(pc.as_slice(), rc.as_slice()) && pc[n] == '/' {
        assert(pc@.subrange(0, n as int + 1) =~= rc@ + seq!['/']);
        let rest = chars_slice(pc.as_slice(), n + 1, pc.len());
        assert(rest@ =~= pc@.skip(n + 1));
        return Some(string_from_chars(rest.as_slice()));
    }
    assert(!starts_with(path@, root@ + seq!['/'])) by {
        if starts_with(path@, root@ + seq!['/']) {
            let w = rc@ + seq!['/'];
            assert(pc@.subrange(0, n as int + 1) == w);
            assert(pc@.subrange(0, n as int) =~= pc@.subrange(0, n as int + 1).subrange(0, n as int));
            assert(w.subrange(0, n as int) =~= rc@);
            assert(pc@[n as int] == pc@.subrange(0, n as int + 1)[n as int]);
            assert(w[n as int] == '/');
            assert(crate::text::starts_with(pc@, rc@));
        }
    }
    None
}

/// A path lies in a root when the root is `.`, is the path, or is a
/// directory above it.
pub open spec fn in_root(path: Seq<char>, root: Seq<char>) -> bool {
    root == dot() || path == root || starts_with(path, root + seq!['/'])
}

pub fn path_in_root(path: &str, root: &str) -> (r: bool)
    ensures
        r == in_root(path@, root@),
{
    let rc = chars_of(root);
    let pc = chars_of(path);
    if rc.len() == 1 && rc[0] == '.' {
        assert(rc@ =~= dot());
        return true;
    }
    if chars_eq(pc.as_slice(), rc.as_slice()) {
        return true;
    }
    match relative_to_root(root, path) {
        Some(_) => true,
        None => false,
    }
}

/// `Path::file_stem` of a single path component: `None` for `.`, `..` and
/// the empty name; the whole name without an embedded `.` or when its only
/// `.` leads it; else what precedes the last `.`.
pub open spec fn file_stem_of(name: Seq<char>) -> Option<Seq<char>> {
    if name.len() == 0 || name == dot() || name == dot_dot() {
        None
    } else if !has_char(name, '.') || last_index(name, '.') == 0 {
        Some(name)
    } else {
        Some(name.take(last_index(name, '.')))
    }
}

pub fn file_stem(name: &[char]) -> (r: Option<Vec<char>>)
    ensures
        match r {
            Some(v) => file_stem_of(name@) == Some(v@),
            None => file_stem_of(name@) is None,
        },
{
    proof {
        lemma_last_index(name@, '.');
    }
    if name.len() == 0 || (name.len() == 1 && name[0] == '.') || (name.len() == 2 && name[0] == '.'
        && name[1] == '.') {
        proof {
            if name@.len() == 1 {
                assert(name@ =~= dot());
            }
            if name@.len() == 2 {
                assert(name@ =~= dot_dot());
            }
        }
        return None;
    }
    assert(name@ != dot() && name@ != dot_dot()) by {
        if name@ == dot() {
            assert(name@.len() == 1 && name@[0] == '.');
        }
        if name@ == dot_dot() {
            assert(name@.len() == 2 && name@[0] == '.' && name@[1] == '.');
        }
    }
    match find_last(name, '.') {
        None => {
            assert(!has_char(name@, '.'));
            Some(chars_slice(name, 0, name.len()).clone())
        },
        Some(i) => {
            assert(has_char(name@, '.'));
            if i == 0 {
                let r = chars_slice(name, 0, name.len());
                assert(r@ =~= name@);
                Some(r)
            } else {
                let r = chars_slice(name, 0, i);
                assert(r@ =~= name@.take(i as int));
                Some(r)
            }
        },
    }
}

/// The name of a component of a repository: the stem of a path segment,
/// or the segment itself when it has no stem.
pub open spec fn component_segment_of(segment: Seq<char>) -> Seq<char> {
    match file_stem_of(segment) {
        Some(s) => if s.len() > 0 {
            s
        } else {
            segment
        },
        None => segment,
    }
}

pub fn component_segment(path_segment: &str) -> (r: String)
    ensures
        r@ == component_segment_of(path_segment@),
{
    let c = chars_of(path_segment);
    match file_stem(c.as_slice()) {
        Some(s) => {
            if s.len() > 0 {
                string_from_chars(s.as_slice())
            } else {
                string_from_chars(c.as_slice())
            }
        },
        None => string_from_chars(c.as_slice()),
    }
}

} // verus!
