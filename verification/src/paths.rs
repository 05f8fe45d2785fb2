//! Paths as the host writes them: how their components are told apart and put together. A host
//! whose separator is not a slash also puts a drive or a network share in front.

use crate::ast::opt_text;
use crate::text::{chars_of, has_prefix, is_at, join2, join3, same, starts_with, text_of, Str};
use vstd::prelude::*;

verus! {

/// Whether a character stands between components: a slash does, and the separator of the host.
pub open spec fn is_separator(c: char, sep: char) -> bool {
    c == '/' || c == sep
}

/// The end of the piece that starts at `i`.
pub open spec fn piece_end(s: Str, i: int, sep: char) -> int
    decreases s.len() - i,
{
    if 0 <= i < s.len() && !is_separator(s[i], sep) {
        piece_end(s, i + 1, sep)
    } else {
        i
    }
}

/// Where the name of the server stands in a path that begins with two separators.
pub open spec fn network_start(s: Str) -> int {
    if has_prefix(s, "\\\\?\\UNC\\"@) {
        8
    } else {
        2
    }
}

/// The end of the drive or the network share in front of a path.
pub open spec fn prefix_end(s: Str, sep: char) -> int {
    if sep == '/' || s.len() < 2 {
        0
    } else if is_separator(s[0], sep) && is_separator(s[1], sep) {
        let start = network_start(s);
        let server = piece_end(s, start, sep);
        let share = piece_end(s, server + 1, sep);
        if start < server < s.len() && server + 1 < share {
            share
        } else {
            0
        }
    } else if s[1] == ':' && ('a' <= s[0] <= 'z' || 'A' <= s[0] <= 'Z') {
        2
    } else {
        0
    }
}

/// Whether a separator stands behind the drive or share, or in front where there is none.
pub open spec fn is_rooted(s: Str, sep: char) -> bool {
    prefix_end(s, sep) < s.len() && is_separator(s[prefix_end(s, sep)], sep)
}

/// Whether a path begins at a root; a network share always does.
pub open spec fn has_root(s: Str, sep: char) -> bool {
    prefix_end(s, sep) > 2 || is_rooted(s, sep)
}

pub open spec fn is_absolute(path: Str, sep: char) -> bool {
    has_root(path, sep) && (sep == '/' || prefix_end(path, sep) > 0)
}

/// Whether the host takes a path literally, so that nothing in it leads upwards.
pub open spec fn is_verbatim(path: Str, sep: char) -> bool {
    sep != '/' && has_prefix(path, "\\\\?\\"@)
}

/// A path with another one pushed behind it: an absolute path, or one with a drive, takes the
/// place of the first; one that only begins at a root keeps the drive or share of the first.
pub open spec fn pushed(path: Str, part: Str, sep: char) -> Str {
    if is_absolute(part, sep) || prefix_end(part, sep) > 0 {
        part
    } else if is_verbatim(path, sep) && part.len() > 0 {
        settled(
            if has_root(part, sep) {
                path.take(prefix_end(path, sep)) + seq![sep]
            } else {
                path
            },
            part,
            0,
            sep,
        )
    } else if has_root(part, sep) {
        path.take(prefix_end(path, sep)) + part
    } else {
        appended(path, part, sep)
    }
}

/// A path with a relative one behind it.
pub open spec fn appended(path: Str, part: Str, sep: char) -> Str {
    if path.len() == 0 || is_separator(path.last(), sep) || (path.len() == 2 && prefix_end(
        path,
        sep,
    ) == 2) {
        path + part
    } else {
        path + seq![sep] + part
    }
}

/// A path with the components of another one, from number `i` on, pushed behind it one by one: a
/// dot stays where it is, and two dots lead to the parent.
pub open spec fn settled(path: Str, part: Str, i: nat, sep: char) -> Str
    decreases components(part, sep).len() - i,
{
    if i >= components(part, sep).len() {
        path
    } else {
        let name = piece(part, components(part, sep)[i as int]);
        let next = if is_dot(name) {
            path
        } else if is_dots(name) {
            match parent_path(path, sep) {
                Some(parent) => parent,
                None => path,
            }
        } else {
            appended(path, name, sep)
        };
        settled(next, part, i + 1, sep)
    }
}

pub open spec fn is_dot(s: Str) -> bool {
    s.len() == 1 && s[0] == '.'
}

pub open spec fn is_dots(s: Str) -> bool {
    s.len() == 2 && s[0] == '.' && s[1] == '.'
}

/// The components from position `i` on, each with its start and end. A single dot counts only at
/// the start of a path, behind its drive.
pub open spec fn components_from(s: Str, i: int, sep: char) -> Seq<(int, int)>
    decreases s.len() - i,
{
    if i < 0 || i >= s.len() {
        Seq::empty()
    } else if is_separator(s[i], sep) {
        components_from(s, i + 1, sep)
    } else {
        let e = piece_end(s, i, sep);
        if e <= i || e > s.len() {
            Seq::empty()
        } else if i != prefix_end(s, sep) && is_dot(s.subrange(i, e)) {
            components_from(s, e, sep)
        } else {
            seq![(i, e)] + components_from(s, e, sep)
        }
    }
}

pub open spec fn components(s: Str, sep: char) -> Seq<(int, int)> {
    components_from(s, prefix_end(s, sep), sep)
}

pub open spec fn piece(s: Str, c: (int, int)) -> Str {
    s.subrange(c.0, c.1)
}

/// The last component, unless it is a dot or two.
pub open spec fn file_name(s: Str, sep: char) -> Option<Str> {
    let all = components(s, sep);
    if all.len() == 0 {
        None
    } else {
        let last = piece(s, all.last());
        if is_dot(last) || is_dots(last) {
            None
        } else {
            Some(last)
        }
    }
}

/// The path without its last component.
pub open spec fn parent_path(s: Str, sep: char) -> Option<Str> {
    let all = components(s, sep);
    if all.len() == 0 {
        None
    } else if all.len() == 1 {
        Some(
            s.take(
                if is_rooted(s, sep) {
                    prefix_end(s, sep) + 1
                } else {
                    prefix_end(s, sep)
                },
            ),
        )
    } else {
        Some(s.take(all[all.len() - 2].1))
    }
}

pub open spec fn climbs(s: Str, sep: char) -> bool {
    exists|i: int|
        0 <= i < components(s, sep).len() && is_dots(piece(s, #[trigger] components(s, sep)[i]))
}

/// Whether a path is relative and made of plain names alone.
pub open spec fn is_plain(s: Str, sep: char) -> bool {
    !has_root(s, sep) && prefix_end(s, sep) == 0 && forall|i: int|
        0 <= i < components(s, sep).len() ==> !is_dot(piece(s, #[trigger] components(s, sep)[i]))
            && !is_dots(piece(s, components(s, sep)[i]))
}

/// The last position before `i` that holds a dot.
pub open spec fn last_dot(s: Str, i: int) -> Option<int>
    decreases i,
{
    if i <= 0 || i > s.len() {
        None
    } else if s[i - 1] == '.' {
        Some(i - 1)
    } else {
        last_dot(s, i - 1)
    }
}

/// What stands behind the last dot of the file name, where the dot is not its first character.
pub open spec fn extension(s: Str, sep: char) -> Option<Str> {
    match file_name(s, sep) {
        None => None,
        Some(name) => match last_dot(name, name.len() as int) {
            None => None,
            Some(i) => if i == 0 {
                None
            } else {
                Some(name.skip(i + 1))
            },
        },
    }
}

/// Whether a resolved path lies in a resolved directory.
pub open spec fn lies_within(path: Str, root: Str, sep: char) -> bool {
    path == root || has_prefix(path, root + seq![sep]) || (root.len() > 0 && is_separator(
        root.last(),
        sep,
    ) && has_prefix(path, root))
}

// ---------------------------------------------------------------------------

pub open spec fn int_pairs(v: Seq<(usize, usize)>) -> Seq<(int, int)> {
    Seq::new(v.len(), |i: int| (v[i].0 as int, v[i].1 as int))
}

fn separates(c: char, sep: char) -> (r: bool)
    ensures
        r == is_separator(c, sep),
{
    c == '/' || c == sep
}

fn separator_text(sep: char) -> (r: String)
    ensures
        r@ == seq![sep],
{
    let mut r = String::new();
    r.push(sep);
    assert(r@ =~= seq![sep]);
    r
}

proof fn lemma_piece_end(s: Str, i: int, sep: char)
    requires
        0 <= i <= s.len(),
    ensures
        i <= piece_end(s, i, sep) <= s.len(),
    decreases s.len() - i,
{
    if i < s.len() && !is_separator(s[i], sep) {
        lemma_piece_end(s, i + 1, sep);
    }
}

fn end_of_piece(v: &Vec<char>, i: usize, sep: char) -> (r: usize)
    requires
        i <= v@.len(),
    ensures
        r == piece_end(v@, i as int, sep),
        i <= r <= v@.len(),
{
    let mut e: usize = i;
    while e < v.len() && !separates(v[e], sep)
        invariant
            i <= e <= v@.len(),
            piece_end(v@, i as int, sep) == piece_end(v@, e as int, sep),
        decreases v.len() - e,
    {
        e += 1;
    }
    e
}

fn end_of_prefix(v: &Vec<char>, sep: char) -> (r: usize)
    ensures
        r == prefix_end(v@, sep),
        r <= v@.len(),
{
    if sep == '/' || v.len() < 2 {
        return 0;
    }
    if separates(v[0], sep) && separates(v[1], sep) {
        proof {
            reveal_strlit("\\\\?\\UNC\\");
        }
        let start: usize = if is_at(v, &chars_of("\\\\?\\UNC\\"), 0) {
            8
        } else {
            2
        };
        let server = end_of_piece(v, start, sep);
        if server == start || server == v.len() {
            return 0;
        }
        let share = end_of_piece(v, server + 1, sep);
        return if server + 1 < share {
            share
        } else {
            0
        };
    }
    let c = v[0];
    if v[1] == ':' && (('a' <= c && c <= 'z') || ('A' <= c && c <= 'Z')) {
        2
    } else {
        0
    }
}

fn path_is_rooted(v: &Vec<char>, sep: char) -> (r: bool)
    ensures
        r == is_rooted(v@, sep),
        r ==> prefix_end(v@, sep) < v.len(),
{
    let end = end_of_prefix(v, sep);
    end < v.len() && separates(v[end], sep)
}

pub fn path_is_absolute(path: &str, sep: char) -> (r: bool)
    ensures
        r == is_absolute(path@, sep),
{
    let v = chars_of(path);
    let end = end_of_prefix(&v, sep);
    (end > 2 || path_is_rooted(&v, sep)) && (sep == '/' || end > 0)
}

fn append_path(path: &str, part: &str, sep: char) -> (r: String)
    ensures
        r@ == appended(path@, part@, sep),
{
    let v = chars_of(path);
    if v.len() == 0 || separates(v[v.len() - 1], sep) || (v.len() == 2 && end_of_prefix(&v, sep)
        == 2) {
        join2(path, part)
    } else {
        join3(path, separator_text(sep).as_str(), part)
    }
}

fn settle_path(path: String, part: &str, sep: char) -> (r: String)
    ensures
        r@ == settled(path@, part@, 0, sep),
{
    let v = chars_of(part);
    let all = split_components(&v, sep);
    let ghost start = path@;
    let mut path = path;
    let mut i: usize = 0;
    while i < all.len()
        invariant
            i <= all@.len(),
            v@ == part@,
            int_pairs(all@) == components(v@, sep),
            forall|k: int|
                0 <= k < all@.len() ==> (#[trigger] all@[k]).0 <= all@[k].1 && all@[k].1
                    <= v@.len(),
            settled(start, part@, 0, sep) == settled(path@, part@, i as nat, sep),
        decreases all.len() - i,
    {
        let (from, to) = all[i];
        assert(components(part@, sep)[i as int] == (from as int, to as int));
        let dot = to - from == 1 && v[from] == '.';
        let dots = to - from == 2 && v[from] == '.' && v[from + 1] == '.';
        assert(dot == is_dot(piece(part@, components(part@, sep)[i as int])));
        assert(dots == is_dots(piece(part@, components(part@, sep)[i as int])));
        if dot {
        } else if dots {
            match path_parent(path.as_str(), sep) {
                Some(parent) => {
                    path = parent;
                },
                None => {},
            }
        } else {
            let name = text_of(&v, from, to);
            path = append_path(path.as_str(), name.as_str(), sep);
        }
        i += 1;
    }
    path
}

pub fn push_path(path: &str, part: &str, sep: char) -> (r: String)
    ensures
        r@ == pushed(path@, part@, sep),
{
    let v = chars_of(part);
    let end = end_of_prefix(&v, sep);
    if path_is_absolute(part, sep) || end > 0 {
        return part.to_owned();
    }
    let rooted = path_is_rooted(&v, sep);
    let verbatim = sep != '/' && starts_with(path, "\\\\?\\");
    if !rooted {
        if verbatim && v.len() > 0 {
            return settle_path(path.to_owned(), part, sep);
        }
        return append_path(path, part, sep);
    }
    let whole = chars_of(path);
    let share = end_of_prefix(&whole, sep);
    let front = text_of(&whole, 0, share);
    assert(front@ =~= path@.take(prefix_end(path@, sep)));
    if verbatim {
        settle_path(join2(front.as_str(), separator_text(sep).as_str()), part, sep)
    } else {
        join2(front.as_str(), part)
    }
}

fn split_components(v: &Vec<char>, sep: char) -> (r: Vec<(usize, usize)>)
    ensures
        int_pairs(r@) == components(v@, sep),
        forall|i: int|
            0 <= i < r@.len() ==> (#[trigger] r@[i]).0 <= r@[i].1 && r@[i].1 <= v@.len(),
{
    let mut out: Vec<(usize, usize)> = Vec::new();
    let first = end_of_prefix(v, sep);
    let mut i: usize = first;
    assert(int_pairs(out@) =~= Seq::<(int, int)>::empty());
    assert(int_pairs(out@) + components(v@, sep) =~= components(v@, sep));
    while i < v.len()
        invariant
            i <= v@.len(),
            first == prefix_end(v@, sep),
            int_pairs(out@) + components_from(v@, i as int, sep) == components(v@, sep),
            forall|k: int|
                0 <= k < out@.len() ==> (#[trigger] out@[k]).0 <= out@[k].1 && out@[k].1
                    <= v@.len(),
        decreases v.len() - i,
    {
        if separates(v[i], sep) {
            i += 1;
        } else {
            let e = end_of_piece(v, i, sep);
            let ghost rest = components_from(v@, e as int, sep);
            let ghost earlier = out@;
            proof {
                lemma_piece_end(v@, i + 1, sep);
            }
            let single = e - i == 1 && v[i] == '.';
            assert(single == is_dot(v@.subrange(i as int, e as int)));
            if i != first && single {
            } else {
                out.push((i, e));
                assert(int_pairs(out@) =~= int_pairs(earlier).push((i as int, e as int)));
                assert(int_pairs(earlier) + (seq![(i as int, e as int)] + rest) =~= int_pairs(out@)
                    + rest);
            }
            i = e;
        }
    }
    assert(int_pairs(out@) + Seq::<(int, int)>::empty() =~= int_pairs(out@));
    out
}

pub fn path_file_name(path: &str, sep: char) -> (r: Option<String>)
    ensures
        opt_text(r) == file_name(path@, sep),
{
    let v = chars_of(path);
    let all = split_components(&v, sep);
    if all.len() == 0 {
        return None;
    }
    let (start, end) = all[all.len() - 1];
    assert(components(v@, sep).last() == (start as int, end as int));
    let dot = end - start == 1 && v[start] == '.';
    let dots = end - start == 2 && v[start] == '.' && v[start + 1] == '.';
    assert(dot == is_dot(v@.subrange(start as int, end as int)));
    assert(dots == is_dots(v@.subrange(start as int, end as int)));
    if dot || dots {
        None
    } else {
        Some(text_of(&v, start, end))
    }
}

pub fn path_parent(path: &str, sep: char) -> (r: Option<String>)
    ensures
        opt_text(r) == parent_path(path@, sep),
{
    let v = chars_of(path);
    let all = split_components(&v, sep);
    if all.len() == 0 {
        return None;
    }
    if all.len() == 1 {
        let prefix = end_of_prefix(&v, sep);
        let end: usize = if path_is_rooted(&v, sep) {
            prefix + 1
        } else {
            prefix
        };
        let r = text_of(&v, 0, end);
        assert(r@ =~= v@.take(end as int));
        return Some(r);
    }
    let end: usize = all[all.len() - 2].1;
    assert(components(v@, sep)[components(v@, sep).len() - 2].1 == end as int);
    let r = text_of(&v, 0, end);
    assert(r@ =~= v@.take(end as int));
    Some(r)
}

/// Whether a path has a component that climbs to the parent directory.
pub fn path_climbs(path: &str, sep: char) -> (r: bool)
    ensures
        r == climbs(path@, sep),
{
    let v = chars_of(path);
    let all = split_components(&v, sep);
    let mut i: usize = 0;
    while i < all.len()
        invariant
            i <= all@.len(),
            v@ == path@,
            int_pairs(all@) == components(v@, sep),
            forall|k: int|
                0 <= k < all@.len() ==> (#[trigger] all@[k]).0 <= all@[k].1 && all@[k].1
                    <= v@.len(),
            forall|k: int|
                0 <= k < i ==> !is_dots(piece(path@, #[trigger] components(path@, sep)[k])),
        decreases all.len() - i,
    {
        let (start, end) = all[i];
        assert(components(path@, sep)[i as int] == (start as int, end as int));
        let dots = end - start == 2 && v[start] == '.' && v[start + 1] == '.';
        assert(dots == is_dots(piece(path@, components(path@, sep)[i as int])));
        if dots {
            return true;
        }
        i += 1;
    }
    false
}

pub fn path_is_plain(path: &str, sep: char) -> (r: bool)
    ensures
        r == is_plain(path@, sep),
{
    let v = chars_of(path);
    if end_of_prefix(&v, sep) > 0 || path_is_rooted(&v, sep) {
        return false;
    }
    let all = split_components(&v, sep);
    let mut i: usize = 0;
    while i < all.len()
        invariant
            i <= all@.len(),
            v@ == path@,
            !has_root(path@, sep),
            prefix_end(path@, sep) == 0,
            int_pairs(all@) == components(v@, sep),
            forall|k: int|
                0 <= k < all@.len() ==> (#[trigger] all@[k]).0 <= all@[k].1 && all@[k].1
                    <= v@.len(),
            forall|k: int|
                0 <= k < i ==> !is_dot(piece(path@, #[trigger] components(path@, sep)[k])) && !is_dots(
                    piece(path@, components(path@, sep)[k]),
                ),
        decreases all.len() - i,
    {
        let (start, end) = all[i];
        assert(components(path@, sep)[i as int] == (start as int, end as int));
        let dot = end - start == 1 && v[start] == '.';
        let dots = end - start == 2 && v[start] == '.' && v[start + 1] == '.';
        assert(dot == is_dot(piece(path@, components(path@, sep)[i as int])));
        assert(dots == is_dots(piece(path@, components(path@, sep)[i as int])));
        if dot || dots {
            return false;
        }
        i += 1;
    }
    true
}

pub fn path_extension(path: &str, sep: char) -> (r: Option<String>)
    ensures
        opt_text(r) == extension(path@, sep),
{
    let name = match path_file_name(path, sep) {
        None => {
            return None;
        },
        Some(name) => name,
    };
    let v = chars_of(name.as_str());
    let mut i: usize = v.len();
    while i > 0 && v[i - 1] != '.'
        invariant
            i <= v@.len(),
            last_dot(v@, v@.len() as int) == last_dot(v@, i as int),
        decreases i,
    {
        i -= 1;
    }
    if i == 0 || i == 1 {
        return None;
    }
    let r = text_of(&v, i, v.len());
    assert(r@ =~= v@.skip(i as int));
    Some(r)
}

pub fn path_lies_within(path: &str, root: &str, sep: char) -> (r: bool)
    ensures
        r == lies_within(path@, root@, sep),
{
    let v = chars_of(root);
    let inside = join2(root, separator_text(sep).as_str());
    same(path, root) || starts_with(path, inside.as_str()) || (v.len() > 0 && separates(
        v[v.len() - 1],
        sep,
    ) && starts_with(path, root))
}

} // verus!
