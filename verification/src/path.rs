//! Paths as text.
//!
//! A path is a text in which `/` separates names. It is read by its components:
//! empty names and the name `.` say nothing, except for a `.` that begins the
//! path; a leading `/` is the root; `..` is the parent. Two paths are the same
//! when their components are. Nothing here looks at a disk.
//!
//! These are the rules of `std::path` on Unix. The prefixes and the second separator
//! of Windows are not modelled, and no path is read where a name ends at anything
//! but `/`: see [`check_separator`].
use vstd::prelude::*;
use vstd::slice::slice_subrange;

use crate::descriptor::opt_text;
use crate::text::{
    begins_with, chars_of, finishes_with, first_index, lemma_first_index, lemma_first_index_is,
    lemma_texts_push, split, split_on, string_of, text_eq, texts,
};

verus! {

/// The name `.`.
pub open spec fn dot() -> Seq<char> {
    seq!['.']
}

/// The name `..`.
pub open spec fn dot_dot() -> Seq<char> {
    seq!['.', '.']
}

/// The root, as a component.
pub open spec fn root() -> Seq<char> {
    seq!['/']
}

pub open spec fn is_absolute(path: Seq<char>) -> bool {
    path.len() > 0 && path[0] == '/'
}

/// A name that says something.
pub open spec fn is_name(name: Seq<char>) -> bool {
    name.len() > 0 && name != dot()
}

/// What stands before the names of a path.
pub open spec fn leading(path: Seq<char>) -> Seq<Seq<char>> {
    if is_absolute(path) {
        seq![root()]
    } else if split(path, '/')[0] == dot() {
        seq![dot()]
    } else {
        seq![]
    }
}

/// The names of a path, in order.
pub open spec fn names(path: Seq<char>) -> Seq<Seq<char>> {
    split(path, '/').filter(|name: Seq<char>| is_name(name))
}

/// The components of a path, in order.
pub open spec fn components(path: Seq<char>) -> Seq<Seq<char>> {
    leading(path) + names(path)
}

/// Two paths with the same components.
pub open spec fn is_same_path(a: Seq<char>, b: Seq<char>) -> bool {
    components(a) == components(b)
}

/// `path` lies at or below `base`.
pub open spec fn is_inside(path: Seq<char>, base: Seq<char>) -> bool {
    components(base).is_prefix_of(components(path))
}

/// Refuses to read paths where they are written otherwise. `separator` is what
/// separates the names of a path on this machine.
pub fn check_separator(separator: char) -> (r: Result<(), String>)
    ensures
        match r {
            Ok(_) => separator == '/',
            Err(e) => separator != '/' && e@
                == "KairoHub reads paths whose names are separated by '/', not by '"@.push(
                separator,
            ).push('\''),
        },
{
    if separator == '/' {
        return Ok(());
    }
    let mut e = "KairoHub reads paths whose names are separated by '/', not by '".to_owned();
    e.push(separator);
    e.push('\'');
    Err(e)
}

pub fn is_dot(s: &str) -> (r: bool)
    ensures
        r == (s@ == dot()),
{
    proof {
        reveal_strlit(".");
    }
    assert("."@ =~= dot());
    text_eq(s, ".")
}

pub fn is_dot_dot(s: &str) -> (r: bool)
    ensures
        r == (s@ == dot_dot()),
{
    proof {
        reveal_strlit("..");
    }
    assert(".."@ =~= dot_dot());
    text_eq(s, "..")
}

pub fn absolute(path: &str) -> (r: bool)
    ensures
        r == is_absolute(path@),
{
    proof {
        reveal_strlit("/");
    }
    let r = begins_with(path, "/");
    proof {
        assert("/"@ =~= root());
        if path@.len() > 0 {
            assert(path@.subrange(0, 1)[0] == path@[0]);
            if path@[0] == '/' {
                assert(path@.subrange(0, 1) =~= root());
            }
        }
    }
    r
}

pub proof fn lemma_split_not_empty(s: Seq<char>, c: char)
    ensures
        split(s, c).len() > 0,
        split(s, c)[0] == s.take(first_index(s, c)),
{
    lemma_first_index(s, c);
    if first_index(s, c) >= s.len() {
        assert(s.take(s.len() as int) =~= s);
    }
}

/// The components of a path.
pub fn path_components(path: &str) -> (r: Vec<String>)
    ensures
        texts(r@) == components(path@),
{
    let parts = split_on(path, '/');
    let mut r: Vec<String> = Vec::new();
    proof {
        lemma_split_not_empty(path@, '/');
        assert(texts(parts@).len() == parts@.len());
        assert(texts(parts@)[0] == parts@[0]@);
    }
    if absolute(path) {
        let mut top = String::new();
        top.push('/');
        assert(top@ =~= root());
        r.push(top);
    } else if is_dot(parts[0].as_str()) {
        let mut here = String::new();
        here.push('.');
        assert(here@ =~= dot());
        r.push(here);
    }
    assert(texts(r@) =~= leading(path@));
    let ghost all = texts(parts@);
    let ghost keep = |name: Seq<char>| is_name(name);
    let mut i: usize = 0;
    assert(all.take(0) =~= Seq::<Seq<char>>::empty());
    reveal(Seq::filter);
    assert(texts(r@) =~= leading(path@) + all.take(0).filter(keep));
    while i < parts.len()
        invariant
            i <= parts.len(),
            all == texts(parts@),
            keep == (|name: Seq<char>| is_name(name)),
            texts(r@) == leading(path@) + all.take(i as int).filter(keep),
        decreases parts.len() - i,
    {
        let ghost before = r@;
        let skip = parts[i].as_str().is_empty() || is_dot(parts[i].as_str());
        proof {
            reveal(Seq::filter);
            assert(all.take(i + 1).drop_last() =~= all.take(i as int));
            assert(all.take(i + 1).last() == parts@[i as int]@);
        }
        if !skip {
            let name = parts[i].clone();
            r.push(name);
            proof {
                lemma_texts_push(before, name);
            }
        }
        assert(texts(r@) =~= leading(path@) + all.take(i + 1).filter(keep));
        i += 1;
    }
    assert(all.take(all.len() as int) =~= all);
    r
}

/// Whether two lists hold the same texts in the same order.
pub fn same_texts(a: &Vec<String>, b: &Vec<String>) -> (r: bool)
    ensures
        r == (texts(a@) == texts(b@)),
{
    if a.len() != b.len() {
        assert(texts(a@).len() == a@.len());
        assert(texts(b@).len() == b@.len());
        return false;
    }
    let mut i: usize = 0;
    while i < a.len()
        invariant
            i <= a.len(),
            a.len() == b.len(),
            forall|j: int| 0 <= j < i ==> a@[j]@ == b@[j]@,
        decreases a.len() - i,
    {
        if !text_eq(a[i].as_str(), b[i].as_str()) {
            assert(texts(a@)[i as int] != texts(b@)[i as int]);
            return false;
        }
        i += 1;
    }
    assert(texts(a@) =~= texts(b@));
    true
}

/// Whether two paths have the same components.
pub fn same_path(a: &str, b: &str) -> (r: bool)
    ensures
        r == is_same_path(a@, b@),
{
    same_texts(&path_components(a), &path_components(b))
}

/// Whether `path` lies at or below `base`.
pub fn inside(path: &str, base: &str) -> (r: bool)
    ensures
        r == is_inside(path@, base@),
{
    let p = path_components(path);
    let b = path_components(base);
    let ghost ps = texts(p@);
    let ghost bs = texts(b@);
    if b.len() > p.len() {
        return false;
    }
    let mut i: usize = 0;
    while i < b.len()
        invariant
            i <= b.len() <= p.len(),
            ps == texts(p@),
            bs == texts(b@),
            ps == components(path@),
            bs == components(base@),
            forall|j: int| 0 <= j < i ==> ps[j] == bs[j],
        decreases b.len() - i,
    {
        if !text_eq(p[i].as_str(), b[i].as_str()) {
            assert(ps.subrange(0, bs.len() as int)[i as int] != bs[i as int]);
            return false;
        }
        i += 1;
    }
    assert(ps.subrange(0, bs.len() as int) =~= bs);
    true
}

/// Both are absent, or both are the same path.
pub open spec fn is_same_option(a: Option<Seq<char>>, b: Option<Seq<char>>) -> bool {
    match (a, b) {
        (Some(x), Some(y)) => is_same_path(x, y),
        (None, None) => true,
        _ => false,
    }
}

pub fn same_option(a: &Option<String>, b: &Option<String>) -> (r: bool)
    ensures
        r == is_same_option(opt_text(*a), opt_text(*b)),
{
    match (a, b) {
        (Some(x), Some(y)) => same_path(x.as_str(), y.as_str()),
        (None, None) => true,
        _ => false,
    }
}

// ---------------------------------------------------------------------------
// Relative paths
// ---------------------------------------------------------------------------
/// Why a path is no relative path below the project root, if it is none.
/// `field` is what the message calls it.
pub open spec fn relative_path_fault(path: Seq<char>, field: Seq<char>) -> Option<Seq<char>> {
    if path.len() == 0 || is_absolute(path) {
        Some(field + " must be a non-empty project-relative path"@)
    } else if components(path).contains(dot_dot()) {
        Some(field + " cannot escape the project root"@)
    } else {
        None
    }
}

pub fn validate_relative_path(path: &str, field: &str) -> (r: Result<(), String>)
    ensures
        match r {
            Ok(_) => relative_path_fault(path@, field@) is None,
            Err(e) => relative_path_fault(path@, field@) == Some(e@),
        },
{
    if path.is_empty() || absolute(path) {
        let mut e = field.to_owned();
        e.append(" must be a non-empty project-relative path");
        return Err(e);
    }
    let parts = path_components(path);
    let mut i: usize = 0;
    while i < parts.len()
        invariant
            i <= parts.len(),
            texts(parts@) == components(path@),
            path@.len() > 0,
            !is_absolute(path@),
            forall|j: int| 0 <= j < i ==> parts@[j]@ != dot_dot(),
        decreases parts.len() - i,
    {
        if is_dot_dot(parts[i].as_str()) {
            assert(texts(parts@)[i as int] == dot_dot());
            let mut e = field.to_owned();
            e.append(" cannot escape the project root");
            return Err(e);
        }
        i += 1;
    }
    assert forall|j: int| 0 <= j < texts(parts@).len() implies texts(parts@)[j] != dot_dot() by {
        assert(texts(parts@)[j] == parts@[j]@);
    }
    Ok(())
}

// ---------------------------------------------------------------------------
// Joining
// ---------------------------------------------------------------------------
/// `path`, taken from `base` if it is relative.
pub open spec fn join_of(base: Seq<char>, path: Seq<char>) -> Seq<char> {
    if is_absolute(path) {
        path
    } else if base.len() == 0 || base.last() == '/' {
        base + path
    } else {
        base.push('/') + path
    }
}

pub fn join_path(base: &str, path: &str) -> (r: String)
    ensures
        r@ == join_of(base@, path@),
{
    if absolute(path) {
        return path.to_owned();
    }
    let mut r = base.to_owned();
    if !base.is_empty() && !finishes_with(base, "/") {
        r.push('/');
    }
    r.append(path);
    proof {
        reveal_strlit("/");
        assert("/"@ =~= root());
        if base@.len() > 0 {
            let n = base@.len() as int;
            assert(base@.subrange(n - 1, n)[0] == base@.last());
            if base@.last() == '/' {
                assert(base@.subrange(n - 1, n) =~= root());
            }
        }
    }
    r
}

pub proof fn lemma_split_concat(a: Seq<char>, b: Seq<char>, c: char)
    ensures
        split(a.push(c) + b, c) == split(a, c) + split(b, c),
    decreases a.len(),
{
    let s = a.push(c) + b;
    lemma_first_index(a, c);
    let n = first_index(a, c);
    assert forall|i: int| 0 <= i < n implies s[i] != c by {
        assert(s[i] == a[i]);
    }
    lemma_first_index_is(s, c, n);
    assert(s.take(n) =~= a.take(n));
    if n >= a.len() {
        assert(a.take(n) =~= a);
        assert(s.skip(n + 1) =~= b);
    } else {
        let t = a.skip(n + 1);
        assert(s.skip(n + 1) =~= t.push(c) + b);
        lemma_split_concat(t, b, c);
        assert(seq![a.take(n)] + (split(t, c) + split(b, c)) =~= (seq![a.take(n)] + split(t, c))
            + split(b, c));
    }
}

proof fn lemma_leading_of_longer(a: Seq<char>, b: Seq<char>)
    requires
        a.len() > 0,
    ensures
        leading(a.push('/') + b) == leading(a),
{
    let s = a.push('/') + b;
    lemma_split_concat(a, b, '/');
    lemma_split_not_empty(a, '/');
    assert(split(s, '/')[0] == split(a, '/')[0]);
    assert(s[0] == a[0]);
}

/// A path below a base, written with a separator between them, has the base's
/// components and then its own names.
pub proof fn lemma_components_below(base: Seq<char>, path: Seq<char>)
    requires
        base.len() > 0,
    ensures
        components(base.push('/') + path) == components(base) + names(path),
{
    broadcast use Seq::filter_distributes_over_add;

    lemma_split_concat(base, path, '/');
    lemma_leading_of_longer(base, path);
    let keep = |name: Seq<char>| is_name(name);
    Seq::filter_distributes_over_add(split(base, '/'), split(path, '/'), keep);
    assert(components(base.push('/') + path) =~= components(base) + names(path));
}

/// The empty path has no components.
pub proof fn lemma_no_components()
    ensures
        split(Seq::<char>::empty(), '/') == seq![Seq::<char>::empty()],
        seq![Seq::<char>::empty()].filter(|name: Seq<char>| is_name(name)) == Seq::<
            Seq<char>,
        >::empty(),
        names(Seq::<char>::empty()) == Seq::<Seq<char>>::empty(),
        components(Seq::<char>::empty()) == Seq::<Seq<char>>::empty(),
{
    let none = Seq::<char>::empty();
    let keep = |name: Seq<char>| is_name(name);
    lemma_first_index(none, '/');
    assert(split(none, '/') =~= seq![none]);
    reveal_with_fuel(Seq::filter, 2);
    assert(seq![none].drop_last() =~= Seq::<Seq<char>>::empty());
    assert(seq![none].filter(keep) =~= Seq::<Seq<char>>::empty());
    assert(components(none) =~= Seq::<Seq<char>>::empty());
}

pub proof fn lemma_names_of_slash(base: Seq<char>)
    ensures
        names(base.push('/')) == names(base),
        base.len() > 0 ==> components(base.push('/')) == components(base),
{
    let none = Seq::<char>::empty();
    let keep = |name: Seq<char>| is_name(name);
    assert(base.push('/') + none =~= base.push('/'));
    lemma_split_concat(base, none, '/');
    lemma_no_components();
    Seq::filter_distributes_over_add(split(base, '/'), seq![none], keep);
    assert(names(base.push('/')) =~= names(base));
    if base.len() > 0 {
        lemma_leading_of_longer(base, none);
    }
}

/// A name without a separator is its own only component.
pub proof fn lemma_single_component(name: Seq<char>)
    requires
        is_name(name),
        !name.contains('/'),
    ensures
        components(name) == seq![name],
        names(name) == seq![name],
{
    let keep = |n: Seq<char>| is_name(n);
    assert forall|i: int| 0 <= i < name.len() implies name[i] != '/' by {
        assert(name.contains(name[i]));
    }
    lemma_first_index_is(name, '/', name.len() as int);
    assert(split(name, '/') =~= seq![name]);
    reveal_with_fuel(Seq::filter, 2);
    assert(seq![name].drop_last() =~= Seq::<Seq<char>>::empty());
    assert(names(name) =~= seq![name]);
    assert(components(name) =~= seq![name]);
}

/// A relative path, taken from a base, lies below the base and adds its names.
pub proof fn lemma_join_components(base: Seq<char>, path: Seq<char>)
    requires
        base.len() > 0,
        !is_absolute(path),
    ensures
        components(join_of(base, path)) == components(base) + names(path),
{
    if base.last() != '/' {
        lemma_components_below(base, path);
    } else {
        let b = base.drop_last();
        assert(b.push('/') =~= base);
        if b.len() > 0 {
            lemma_components_below(b, path);
            lemma_names_of_slash(b);
        } else {
            let none = Seq::<char>::empty();
            assert(b =~= none);
            let s = base + path;
            assert(s =~= none.push('/') + path);
            lemma_split_concat(none, path, '/');
            lemma_no_components();
            let keep = |name: Seq<char>| is_name(name);
            Seq::filter_distributes_over_add(seq![none], split(path, '/'), keep);
            assert(names(s) =~= names(path));
            lemma_names_of_slash(none);
            assert(names(none) =~= seq![none].filter(keep));
            assert(none.push('/') =~= base);
            assert(components(base) =~= seq![root()]);
            assert(components(s) =~= components(base) + names(path));
        }
    }
}

/// A path that passes as relative never leaves the directory it is taken from:
/// joined to any base it lies inside the base, and no `..` follows the base's
/// own components.
pub proof fn law_relative_path_stays_inside(base: Seq<char>, path: Seq<char>, field: Seq<char>)
    requires
        relative_path_fault(path, field) is None,
    ensures
        is_inside(join_of(base, path), base),
        forall|i: int|
            components(base).len() <= i < components(join_of(base, path)).len() ==> components(
                join_of(base, path),
            )[i] != dot_dot(),
{
    let all = components(join_of(base, path));
    if base.len() == 0 {
        assert(base + path =~= path);
        let none = Seq::<char>::empty();
        assert(base =~= none);
        lemma_no_components();
        assert(all.subrange(0, 0) =~= components(base));
        assert forall|i: int| 0 <= i < all.len() implies all[i] != dot_dot() by {
            assert(components(path).contains(all[i]));
        }
    } else {
        lemma_join_components(base, path);
        assert(all.subrange(0, components(base).len() as int) =~= components(base));
        assert forall|i: int| components(base).len() <= i < all.len() implies all[i]
            != dot_dot() by {
            let name = names(path)[i - components(base).len()];
            assert(all[i] == name);
            assert(components(path)[leading(path).len() + i - components(base).len()] == name);
            assert(components(path).contains(name));
        }
    }
}

// ---------------------------------------------------------------------------
// File names
// ---------------------------------------------------------------------------
/// Where `c` last stands in `s`; -1 if it does not.
pub open spec fn last_index(s: Seq<char>, c: char) -> int
    decreases s.len(),
{
    if s.len() == 0 {
        -1
    } else if s.last() == c {
        s.len() - 1
    } else {
        last_index(s.drop_last(), c)
    }
}

pub proof fn lemma_last_index(s: Seq<char>, c: char)
    ensures
        -1 <= last_index(s, c) < s.len(),
        last_index(s, c) >= 0 ==> s[last_index(s, c)] == c,
        forall|i: int| last_index(s, c) < i < s.len() ==> s[i] != c,
    decreases s.len(),
{
    if s.len() > 0 && s.last() != c {
        let t = s.drop_last();
        lemma_last_index(t, c);
        assert forall|i: int| last_index(s, c) < i < s.len() implies s[i] != c by {
            if i < t.len() {
                assert(s[i] == t[i]);
            }
        }
    }
}

pub proof fn lemma_last_index_is(s: Seq<char>, c: char, n: int)
    requires
        -1 <= n < s.len(),
        n >= 0 ==> s[n] == c,
        forall|i: int| n < i < s.len() ==> s[i] != c,
    ensures
        last_index(s, c) == n,
{
    lemma_last_index(s, c);
}

/// A path without the separators, and the `.` names, that end it.
pub open spec fn tail_trimmed(path: Seq<char>) -> Seq<char>
    decreases path.len(),
{
    let n = path.len() as int;
    if n > 0 && (path[n - 1] == '/' || (n > 1 && path[n - 1] == '.' && path[n - 2] == '/')) {
        tail_trimmed(path.drop_last())
    } else {
        path
    }
}

/// What stands behind the last separator of a path, trimmed at its tail.
pub open spec fn last_name(path: Seq<char>) -> Seq<char> {
    let t = tail_trimmed(path);
    t.skip(last_index(t, '/') + 1)
}

/// The name of the file that a path leads to, if it ends in a name.
pub open spec fn file_name_of(path: Seq<char>) -> Option<Seq<char>> {
    let name = last_name(path);
    if is_name(name) && name != dot_dot() {
        Some(name)
    } else {
        None
    }
}

/// How much of a file name stands before its extension: all of it if it has none.
pub open spec fn stem_length(name: Seq<char>) -> int {
    if last_index(name, '.') <= 0 {
        name.len() as int
    } else {
        last_index(name, '.')
    }
}

/// What stands behind the last dot of the file name, if the dot does not begin it.
pub open spec fn extension_of(path: Seq<char>) -> Option<Seq<char>> {
    match file_name_of(path) {
        Some(name) => if stem_length(name) < name.len() {
            Some(name.skip(stem_length(name) + 1))
        } else {
            None
        },
        None => None,
    }
}

/// The path without its last component; none for the root and the empty path.
pub open spec fn parent_of(path: Seq<char>) -> Option<Seq<char>> {
    let t = tail_trimmed(path);
    let above = t.take(last_index(t, '/') + 1);
    if t.len() == 0 {
        None
    } else if above.len() > 0 && tail_trimmed(above).len() == 0 {
        Some(root())
    } else {
        Some(tail_trimmed(above))
    }
}

/// The directory that holds the file at `path`: the working directory if the
/// path has no parent.
pub open spec fn directory_of(path: Seq<char>) -> Seq<char> {
    match parent_of(path) {
        Some(parent) => parent,
        None => dot(),
    }
}

/// The file written in place of `path` until it is complete: its extension
/// becomes `<extension>.tmp`, or `file.tmp` if it has none.
pub open spec fn temporary_of(path: Seq<char>) -> Seq<char> {
    let t = tail_trimmed(path);
    let extension = match extension_of(path) {
        Some(e) => e,
        None => "file"@,
    };
    match file_name_of(path) {
        Some(name) => t.take(t.len() - name.len() + stem_length(name)) + "."@ + extension
            + ".tmp"@,
        None => path,
    }
}

pub proof fn lemma_tail_trimmed(path: Seq<char>)
    ensures
        tail_trimmed(path).len() <= path.len(),
        tail_trimmed(path) == path.take(tail_trimmed(path).len() as int),
        tail_trimmed(tail_trimmed(path)) == tail_trimmed(path),
        tail_trimmed(path).len() > 0 ==> tail_trimmed(path).last() != '/',
    decreases path.len(),
{
    let n = path.len() as int;
    if n > 0 && (path[n - 1] == '/' || (n > 1 && path[n - 1] == '.' && path[n - 2] == '/')) {
        lemma_tail_trimmed(path.drop_last());
        let k = tail_trimmed(path).len() as int;
        assert(path.drop_last().take(k) =~= path.take(k));
    } else {
        assert(path.take(n) =~= path);
    }
}

/// How long the path is without what [`tail_trimmed`] takes off.
fn trimmed_length(v: &[char], length: usize) -> (n: usize)
    requires
        length <= v.len(),
    ensures
        n <= length,
        v@.take(n as int) == tail_trimmed(v@.take(length as int)),
{
    let mut n: usize = length;
    while n > 0 && (v[n - 1] == '/' || (n > 1 && v[n - 1] == '.' && v[n - 2] == '/'))
        invariant
            n <= length <= v.len(),
            tail_trimmed(v@.take(n as int)) == tail_trimmed(v@.take(length as int)),
        decreases n,
    {
        assert(v@.take(n as int).drop_last() =~= v@.take(n - 1));
        n -= 1;
    }
    n
}

/// How long the first part of `v`, up to and with its last `c`, is.
fn length_to_last(v: &[char], length: usize, c: char) -> (n: usize)
    requires
        length <= v.len(),
    ensures
        n <= length,
        n == last_index(v@.take(length as int), c) + 1,
{
    let mut n: usize = length;
    while n > 0 && v[n - 1] != c
        invariant
            n <= length <= v.len(),
            forall|i: int| n <= i < length ==> v@[i] != c,
        decreases n,
    {
        n -= 1;
    }
    proof {
        lemma_last_index_is(v@.take(length as int), c, n - 1);
    }
    n
}

fn last_name_text(path: &str) -> (r: String)
    ensures
        r@ == last_name(path@),
{
    let v = chars_of(path);
    let all = v.len();
    let n = trimmed_length(v.as_slice(), all);
    assert(v@.take(all as int) =~= path@);
    let k = length_to_last(v.as_slice(), n, '/');
    let r = string_of(slice_subrange(v.as_slice(), k, n));
    assert(r@ =~= v@.take(n as int).skip(k as int));
    r
}

pub fn file_name(path: &str) -> (r: Option<String>)
    ensures
        match r {
            Some(name) => file_name_of(path@) == Some(name@),
            None => file_name_of(path@) is None,
        },
{
    let name = last_name_text(path);
    if name.as_str().is_empty() || is_dot(name.as_str()) || is_dot_dot(name.as_str()) {
        None
    } else {
        Some(name)
    }
}

/// The length of a file name's stem.
fn stem_of(v: &[char]) -> (n: usize)
    ensures
        n <= v.len(),
        n == stem_length(v@),
{
    let all = v.len();
    assert(v@.take(all as int) =~= v@);
    let k = length_to_last(v, all, '.');
    if k <= 1 {
        all
    } else {
        k - 1
    }
}

pub fn extension(path: &str) -> (r: Option<String>)
    ensures
        match r {
            Some(e) => extension_of(path@) == Some(e@),
            None => extension_of(path@) is None,
        },
{
    match file_name(path) {
        Some(name) => {
            let v = chars_of(name.as_str());
            let n = stem_of(v.as_slice());
            if n < v.len() {
                let e = string_of(slice_subrange(v.as_slice(), n + 1, v.len()));
                assert(e@ =~= name@.skip(n + 1));
                Some(e)
            } else {
                None
            }
        },
        None => None,
    }
}

pub fn parent_path(path: &str) -> (r: Option<String>)
    ensures
        match r {
            Some(p) => parent_of(path@) == Some(p@),
            None => parent_of(path@) is None,
        },
{
    let v = chars_of(path);
    let all = v.len();
    let n = trimmed_length(v.as_slice(), all);
    assert(v@.take(all as int) =~= path@);
    if n == 0 {
        return None;
    }
    let ghost t = v@.take(n as int);
    let k = length_to_last(v.as_slice(), n, '/');
    assert(t.take(k as int) =~= v@.take(k as int));
    let m = trimmed_length(v.as_slice(), k);
    if k > 0 && m == 0 {
        let mut top = String::new();
        top.push('/');
        assert(top@ =~= root());
        return Some(top);
    }
    let r = string_of(slice_subrange(v.as_slice(), 0, m));
    assert(r@ =~= v@.take(m as int));
    Some(r)
}

pub fn directory_path(path: &str) -> (r: String)
    ensures
        r@ == directory_of(path@),
{
    match parent_path(path) {
        Some(p) => p,
        None => {
            let mut here = String::new();
            here.push('.');
            assert(here@ =~= dot());
            here
        },
    }
}

pub fn temporary_path(path: &str) -> (r: String)
    ensures
        r@ == temporary_of(path@),
{
    let name = match file_name(path) {
        Some(name) => name,
        None => {
            return path.to_owned();
        },
    };
    let v = chars_of(path);
    let all = v.len();
    let n = trimmed_length(v.as_slice(), all);
    let w = chars_of(name.as_str());
    let stem = stem_of(w.as_slice());
    let ghost t = v@.take(n as int);
    proof {
        assert(v@.take(all as int) =~= path@);
        lemma_last_index(t, '/');
    }
    let cut: usize = n - w.len() + stem;
    let mut r = string_of(slice_subrange(v.as_slice(), 0, cut));
    assert(r@ =~= t.take(cut as int));
    r.append(".");
    match extension(path) {
        Some(e) => r.append(e.as_str()),
        None => r.append("file"),
    }
    r.append(".tmp");
    r
}

/// A file is written in its own directory until it is complete: the temporary
/// file has the same parent, and is another path than the file itself.
pub proof fn law_temporary_file_is_a_sibling(path: Seq<char>)
    requires
        file_name_of(path) is Some,
    ensures
        parent_of(temporary_of(path)) == parent_of(path),
        file_name_of(temporary_of(path)) is Some,
        file_name_of(temporary_of(path)) != file_name_of(path),
{
    reveal_strlit(".");
    reveal_strlit("file");
    reveal_strlit(".tmp");
    let t = tail_trimmed(path);
    let name = last_name(path);
    let k = last_index(t, '/');
    lemma_last_index(t, '/');
    lemma_tail_trimmed(path);
    lemma_last_index(name, '.');
    let stem = stem_length(name);
    let extension = match extension_of(path) {
        Some(e) => e,
        None => "file"@,
    };
    let base = t.take(k + 1 + stem);
    let r = temporary_of(path);
    assert(t.len() - name.len() == k + 1);
    assert(r == base + "."@ + extension + ".tmp"@);
    assert(r[r.len() - 1] == 'p');
    assert(tail_trimmed(r) == r);
    assert forall|i: int| k < i < r.len() implies r[i] != '/' by {
        if i < base.len() {
            assert(r[i] == t[i]);
        } else if i == base.len() {
            assert(r[i] == '.');
        } else if i < base.len() + 1 + extension.len() {
            assert(r[i] == extension[i - base.len() - 1]);
            if extension_of(path) is Some {
                assert(extension[i - base.len() - 1] == name[stem + 1 + (i - base.len() - 1)]);
                assert(name[stem + 1 + (i - base.len() - 1)] == t[k + 1 + stem + 1 + (i
                    - base.len() - 1)]);
            }
        } else {
            assert(r[i] == ".tmp"@[i - base.len() - 1 - extension.len()]);
        }
    }
    assert(k >= 0 ==> r[k] == t[k]);
    lemma_last_index_is(r, '/', k);
    assert(r.take(k + 1) =~= t.take(k + 1));
    let new_name = last_name(r);
    assert(new_name =~= r.skip(k + 1));
    assert(new_name.len() == stem + 1 + extension.len() + 4);
    assert(new_name.len() > name.len());
}

pub proof fn lemma_tail_trimmed_components(path: Seq<char>)
    ensures
        tail_trimmed(path).len() > 0 ==> components(path) == components(tail_trimmed(path)),
        path.len() > 0 && tail_trimmed(path).len() == 0 ==> components(path) == seq![root()],
    decreases path.len(),
{
    let n = path.len() as int;
    let none = Seq::<char>::empty();
    if n > 0 && path[n - 1] == '/' {
        let q = path.drop_last();
        assert(q.push('/') =~= path);
        if q.len() > 0 {
            lemma_names_of_slash(q);
            lemma_tail_trimmed_components(q);
        } else {
            assert(q =~= none);
            lemma_no_components();
            lemma_names_of_slash(none);
            assert(tail_trimmed(q) == q);
            assert(components(path) =~= seq![root()]);
        }
    } else if n > 1 && path[n - 1] == '.' && path[n - 2] == '/' {
        let p = path.drop_last();
        let q = p.drop_last();
        assert(p =~= q.push('/'));
        assert(path =~= q.push('/') + dot());
        lemma_tail_trimmed_components(p);
        lemma_names_of_dot();
        if q.len() > 0 {
            lemma_components_below(q, dot());
            lemma_names_of_slash(q);
            assert(components(q) + names(dot()) =~= components(q));
        } else {
            assert(q =~= none);
            assert(p.len() == 1 && p.last() == '/');
            lemma_join_components(p, dot());
            assert(join_of(p, dot()) =~= path);
            assert(components(p) + names(dot()) =~= components(p));
        }
    }
}

pub proof fn lemma_names_of_dot()
    ensures
        names(dot()) == Seq::<Seq<char>>::empty(),
{
    let keep = |name: Seq<char>| is_name(name);
    lemma_first_index_is(dot(), '/', 1);
    assert(split(dot(), '/') =~= seq![dot()]);
    reveal_with_fuel(Seq::filter, 2);
    assert(seq![dot()].drop_last() =~= Seq::<Seq<char>>::empty());
}

/// A path that ends in a file name leads to that name in the directory that is
/// its parent.
pub proof fn law_file_stands_in_its_directory(path: Seq<char>)
    requires
        file_name_of(path) is Some,
    ensures
        parent_of(path) is Some,
        components(path) == components(parent_of(path)->0).push(file_name_of(path)->0),
{
    let t = tail_trimmed(path);
    let k = last_index(t, '/');
    let name = last_name(path);
    let above = t.take(k + 1);
    let none = Seq::<char>::empty();
    lemma_last_index(t, '/');
    lemma_tail_trimmed(path);
    assert(t.len() > 0);
    lemma_tail_trimmed_components(path);
    assert(!name.contains('/')) by {
        assert forall|i: int| 0 <= i < name.len() implies name[i] != '/' by {
            assert(name[i] == t[k + 1 + i]);
        }
    }
    lemma_single_component(name);
    assert(!is_absolute(name));
    if k < 0 {
        assert(above =~= none);
        assert(t =~= name);
        lemma_no_components();
        assert(tail_trimmed(above) =~= none);
        assert(components(none).push(name) =~= seq![name]);
    } else {
        let q = above.drop_last();
        assert(above =~= q.push('/'));
        assert(t =~= above + name);
        assert(above.last() == '/');
        assert(join_of(above, name) == t);
        lemma_join_components(above, name);
        assert(components(above) + seq![name] =~= components(above).push(name));
        lemma_tail_trimmed_components(above);
        lemma_join_components(root(), none);
        lemma_no_components();
        assert(components(root()) =~= seq![root()]) by {
            lemma_names_of_slash(none);
            assert(none.push('/') =~= root());
        }
    }
}

// ---------------------------------------------------------------------------
// Order
// ---------------------------------------------------------------------------
/// The order of texts by their first different character; a text comes before
/// the longer ones that it begins.
pub open spec fn text_before(a: Seq<char>, b: Seq<char>) -> bool
    decreases a.len(),
{
    if b.len() == 0 {
        false
    } else if a.len() == 0 {
        true
    } else if a[0] != b[0] {
        (a[0] as u32) < (b[0] as u32)
    } else {
        text_before(a.drop_first(), b.drop_first())
    }
}

/// The kinds of components in their order: the root, `.`, `..`, names.
pub open spec fn component_rank(c: Seq<char>) -> int {
    if c == root() {
        0
    } else if c == dot() {
        1
    } else if c == dot_dot() {
        2
    } else {
        3
    }
}

pub open spec fn component_before(a: Seq<char>, b: Seq<char>) -> bool {
    if component_rank(a) != component_rank(b) {
        component_rank(a) < component_rank(b)
    } else {
        text_before(a, b)
    }
}

pub open spec fn components_before(a: Seq<Seq<char>>, b: Seq<Seq<char>>) -> bool
    decreases a.len(),
{
    if b.len() == 0 {
        false
    } else if a.len() == 0 {
        true
    } else if a[0] != b[0] {
        component_before(a[0], b[0])
    } else {
        components_before(a.drop_first(), b.drop_first())
    }
}

/// The order of paths by their first different component.
pub open spec fn path_before(a: Seq<char>, b: Seq<char>) -> bool {
    components_before(components(a), components(b))
}

fn text_less(a: &str, b: &str) -> (r: bool)
    ensures
        r == text_before(a@, b@),
{
    let v = chars_of(a);
    let w = chars_of(b);
    let mut i: usize = 0;
    assert(a@.skip(0) =~= a@);
    assert(b@.skip(0) =~= b@);
    while i < v.len() && i < w.len()
        invariant
            i <= v.len(),
            i <= w.len(),
            v@ == a@,
            w@ == b@,
            text_before(a@, b@) == text_before(a@.skip(i as int), b@.skip(i as int)),
        decreases v.len() - i,
    {
        if v[i] != w[i] {
            let x: u32 = v[i] as u32;
            let y: u32 = w[i] as u32;
            return x < y;
        }
        assert(a@.skip(i as int).drop_first() =~= a@.skip(i + 1));
        assert(b@.skip(i as int).drop_first() =~= b@.skip(i + 1));
        i += 1;
    }
    i < w.len()
}

fn rank_of(c: &str) -> (r: u8)
    ensures
        r == component_rank(c@),
{
    proof {
        reveal_strlit("/");
    }
    assert("/"@ =~= root());
    if text_eq(c, "/") {
        0
    } else if is_dot(c) {
        1
    } else if is_dot_dot(c) {
        2
    } else {
        3
    }
}

/// Whether the path `a` comes before the path `b`.
pub fn path_less(a: &str, b: &str) -> (r: bool)
    ensures
        r == path_before(a@, b@),
{
    let v = path_components(a);
    let w = path_components(b);
    let ghost x = texts(v@);
    let ghost y = texts(w@);
    let mut i: usize = 0;
    assert(x.skip(0) =~= x);
    assert(y.skip(0) =~= y);
    while i < v.len() && i < w.len()
        invariant
            i <= v.len(),
            i <= w.len(),
            x == texts(v@),
            y == texts(w@),
            path_before(a@, b@) == components_before(x.skip(i as int), y.skip(i as int)),
        decreases v.len() - i,
    {
        assert(x[i as int] == v@[i as int]@);
        assert(y[i as int] == w@[i as int]@);
        if !text_eq(v[i].as_str(), w[i].as_str()) {
            let m = rank_of(v[i].as_str());
            let n = rank_of(w[i].as_str());
            if m != n {
                return m < n;
            }
            return text_less(v[i].as_str(), w[i].as_str());
        }
        assert(x.skip(i as int).drop_first() =~= x.skip(i + 1));
        assert(y.skip(i as int).drop_first() =~= y.skip(i + 1));
        i += 1;
    }
    i < w.len()
}

proof fn lemma_text_before_total(a: Seq<char>, b: Seq<char>)
    ensures
        !(text_before(a, b) && text_before(b, a)),
        a != b ==> text_before(a, b) || text_before(b, a),
        a == b ==> !text_before(a, b),
    decreases a.len(),
{
    if a.len() == 0 || b.len() == 0 {
        if a.len() == 0 && b.len() == 0 {
            assert(a =~= b);
        }
    } else if a[0] == b[0] {
        lemma_text_before_total(a.drop_first(), b.drop_first());
        if a.drop_first() == b.drop_first() {
            assert(a =~= seq![a[0]] + a.drop_first());
            assert(b =~= seq![b[0]] + b.drop_first());
        }
    } else if a[0] as u32 == b[0] as u32 {
        vstd::utf8::char_u32_cast(a[0], a[0] as u32);
        vstd::utf8::char_u32_cast(b[0], b[0] as u32);
    }
}

proof fn lemma_text_before_chain(a: Seq<char>, b: Seq<char>, c: Seq<char>)
    requires
        text_before(a, b),
        text_before(b, c),
    ensures
        text_before(a, c),
    decreases a.len(),
{
    if a.len() > 0 && a[0] == b[0] && b[0] == c[0] {
        lemma_text_before_chain(a.drop_first(), b.drop_first(), c.drop_first());
    }
}

proof fn lemma_components_before_total(a: Seq<Seq<char>>, b: Seq<Seq<char>>)
    ensures
        !(components_before(a, b) && components_before(b, a)),
        a != b ==> components_before(a, b) || components_before(b, a),
        a == b ==> !components_before(a, b),
    decreases a.len(),
{
    if a.len() == 0 || b.len() == 0 {
        if a.len() == 0 && b.len() == 0 {
            assert(a =~= b);
        }
    } else if a[0] == b[0] {
        lemma_components_before_total(a.drop_first(), b.drop_first());
        if a.drop_first() == b.drop_first() {
            assert(a =~= seq![a[0]] + a.drop_first());
            assert(b =~= seq![b[0]] + b.drop_first());
        }
    } else {
        lemma_text_before_total(a[0], b[0]);
    }
}

proof fn lemma_components_before_chain(
    a: Seq<Seq<char>>,
    b: Seq<Seq<char>>,
    c: Seq<Seq<char>>,
)
    requires
        components_before(a, b),
        components_before(b, c),
    ensures
        components_before(a, c),
    decreases a.len(),
{
    if a.len() > 0 {
        if a[0] == b[0] && b[0] == c[0] {
            lemma_components_before_chain(a.drop_first(), b.drop_first(), c.drop_first());
        } else if a[0] != b[0] && b[0] != c[0] {
            if component_rank(a[0]) == component_rank(b[0]) && component_rank(b[0])
                == component_rank(c[0]) {
                lemma_text_before_chain(a[0], b[0], c[0]);
                lemma_text_before_total(a[0], c[0]);
            } else if a[0] == c[0] {
                lemma_text_before_total(a[0], b[0]);
            }
        }
    }
}

/// Paths are in a total order, up to being the same path: of two different
/// paths exactly one comes before the other, and the order is transitive.
pub proof fn law_path_order_is_total(a: Seq<char>, b: Seq<char>, c: Seq<char>)
    ensures
        !(path_before(a, b) && path_before(b, a)),
        is_same_path(a, b) <==> !path_before(a, b) && !path_before(b, a),
        path_before(a, b) && path_before(b, c) ==> path_before(a, c),
{
    lemma_components_before_total(components(a), components(b));
    if path_before(a, b) && path_before(b, c) {
        lemma_components_before_chain(components(a), components(b), components(c));
    }
}

} // verus!
