//! Paths: components, file names, joining and order.
use vstd::prelude::*;

use crate::path::{
    components, components_before, directory_of, dot, dot_dot, extension_of, file_name_of,
    is_absolute, is_inside, is_name, is_same_path, join_of, last_index, last_name, leading,
    lemma_components_below, lemma_join_components, lemma_last_index, lemma_last_index_is,
    lemma_names_of_dot, lemma_names_of_slash, lemma_no_components, lemma_single_component,
    lemma_tail_trimmed, lemma_tail_trimmed_components, names, parent_of, path_before,
    relative_path_fault, root, stem_length, tail_trimmed, temporary_of, text_before,
};
use crate::text::{lemma_first_index, lemma_first_index_is, split};

verus! {

/// A name behind a base is one more component, except that an empty name and `.`
/// are none. Alone, `.` is a component, and so is the `/` that begins a path.
pub proof fn law_components_are_the_names(base: Seq<char>, name: Seq<char>)
    requires
        !name.contains('/'),
    ensures
        ({
            let own = if name.len() == 0 || name == seq!['.'] {
                Seq::<Seq<char>>::empty()
            } else {
                seq![name]
            };
            &&& components(name) == if name == seq!['.'] {
                seq![name]
            } else {
                own
            }
            &&& components(seq!['/'] + name) == seq![seq!['/']] + own
            &&& base.len() > 0 ==> components(base.push('/') + name) == components(base) + own
        }),
{
    let none = Seq::<char>::empty();
    let own = if name.len() == 0 || name == seq!['.'] {
        Seq::<Seq<char>>::empty()
    } else {
        seq![name]
    };
    lemma_no_components();
    if name.len() == 0 {
        assert(name =~= none);
        assert(names(name) =~= own);
    } else if name == seq!['.'] {
        lemma_names_of_dot();
        lemma_first_index_is(name, '/', 1);
        assert(split(name, '/') =~= seq![name]);
        assert(components(name) =~= seq![name]);
    } else {
        lemma_single_component(name);
    }
    assert(!is_absolute(name)) by {
        if is_absolute(name) {
            assert(name.contains(name[0]));
        }
    }
    lemma_join_components(root(), name);
    lemma_root_component();
    assert(join_of(root(), name) =~= seq!['/'] + name);
    if base.len() > 0 {
        lemma_components_below(base, name);
    }
}

proof fn lemma_root_component()
    ensures
        components(root()) == seq![root()],
{
    let none = Seq::<char>::empty();
    lemma_no_components();
    lemma_names_of_slash(none);
    assert(none.push('/') =~= root());
    assert(components(root()) =~= seq![root()]);
}

/// A name that is put behind a base is one component more.
pub proof fn law_name_is_put_below(base: Seq<char>, name: Seq<char>)
    requires
        base.len() > 0,
        !name.contains('/') && name.len() > 0 && name != seq!['.'],
    ensures
        components(join_of(base, name)) == components(base).push(name),
        join_of(base, name).len() > 0,
{
    assert(!is_absolute(name)) by {
        if is_absolute(name) {
            assert(name.contains(name[0]));
        }
    }
    lemma_join_components(base, name);
    law_components_are_the_names(base, name);
    assert(components(base) + seq![name] =~= components(base).push(name));
}

/// Only the empty path has no components.
pub proof fn law_only_the_empty_path_has_no_components(path: Seq<char>)
    ensures
        components(path).len() == 0 <==> path.len() == 0,
{
    if path.len() == 0 {
        assert(path =~= Seq::<char>::empty());
        lemma_no_components();
    } else if !is_absolute(path) {
        lemma_first_index(path, '/');
        let first = split(path, '/')[0];
        assert(first.len() > 0);
        if first != dot() {
            split(path, '/').lemma_filter_contains(|name: Seq<char>| is_name(name), 0);
            assert(names(path).contains(first));
        }
    }
}

/// Two paths are the same if their components are; a path is inside another if
/// its components go on from those of the other; and a path is absolute if it
/// begins with `/`, which is then its first component.
pub proof fn law_paths_are_their_components(a: Seq<char>, b: Seq<char>)
    ensures
        is_same_path(a, b) <==> components(a) == components(b),
        is_inside(a, b) <==> exists|more: Seq<Seq<char>>| components(a) == #[trigger] (components(b)
            + more),
        is_absolute(a) <==> a.len() > 0 && a.first() == '/',
        is_absolute(a) <==> components(a).len() > 0 && components(a)[0] == seq!['/'],
{
    let p = components(a);
    let q = components(b);
    if is_inside(a, b) {
        assert(p =~= q + p.skip(q.len() as int)) by {
            assert(p.subrange(0, q.len() as int) =~= q);
            assert(p =~= p.subrange(0, q.len() as int) + p.skip(q.len() as int));
        }
    }
    if exists|more: Seq<Seq<char>>| p == #[trigger] (q + more) {
        let more = choose|more: Seq<Seq<char>>| p == #[trigger] (q + more);
        assert(p.subrange(0, q.len() as int) =~= q);
    }
    if is_absolute(a) {
        assert(components(a)[0] == leading(a)[0]);
    } else if components(a).len() > 0 && components(a)[0] == seq!['/'] {
        crate::laws::text::law_split_parts_make_the_text(a, '/');
        if leading(a).len() > 0 {
            assert(components(a)[0] == leading(a)[0]);
            assert(seq!['/'][0] != dot()[0]);
        } else {
            assert(components(a)[0] == names(a)[0]);
            split(a, '/').lemma_filter_contains_rev(
                |name: Seq<char>| crate::path::is_name(name),
                names(a)[0],
            );
            let i = choose|i: int| 0 <= i < split(a, '/').len() && split(a, '/')[i] == seq!['/'];
            assert(seq!['/'].contains(seq!['/'][0]));
            assert(!split(a, '/')[i].contains('/'));
        }
    }
}

/// A path is taken as relative if and only if it is not empty, does not begin with
/// `/` and has no component `..`; the message says which of these is at fault.
pub proof fn law_relative_paths(path: Seq<char>, field: Seq<char>)
    ensures
        relative_path_fault(path, field) is None <==> {
            &&& path.len() > 0
            &&& path[0] != '/'
            &&& forall|i: int|
                0 <= i < components(path).len() ==> #[trigger] components(path)[i] != seq!['.', '.']
        },
        relative_path_fault(path, field) matches Some(e) ==> e == field + (if path.len() == 0
            || path[0] == '/' {
            " must be a non-empty project-relative path"@
        } else {
            " cannot escape the project root"@
        }),
{
    if components(path).contains(dot_dot()) {
        let i = choose|i: int| 0 <= i < components(path).len() && components(path)[i] == dot_dot();
        assert(components(path)[i] == seq!['.', '.']);
    } else {
        assert forall|i: int| 0 <= i < components(path).len() implies #[trigger] components(path)[i]
            != seq!['.', '.'] by {
            assert(components(path).contains(components(path)[i]));
        }
    }
}

/// A relative path is put behind the base, with one `/` between them; an absolute
/// path stands alone.
pub proof fn law_joined_paths(base: Seq<char>, path: Seq<char>)
    ensures
        path.len() > 0 && path[0] == '/' ==> join_of(base, path) == path,
        (path.len() == 0 || path[0] != '/') && base.len() > 0 && base.last() != '/' ==> join_of(
            base,
            path,
        ) == base + seq!['/'] + path,
        (path.len() == 0 || path[0] != '/') && base.len() > 0 && base.last() == '/' ==> join_of(
            base,
            path,
        ) == base + path,
        (path.len() == 0 || path[0] != '/') && base.len() == 0 ==> join_of(base, path) == path,
{
    assert(base.push('/') + path =~= base + seq!['/'] + path);
    if base.len() == 0 {
        assert(base + path =~= path);
    }
}

proof fn lemma_last_part(t: Seq<char>)
    requires
        t.len() > 0,
        tail_trimmed(t) == t,
    ensures
        ({
            let k = last_index(t, '/');
            let name = t.skip(k + 1);
            let above = t.take(k + 1);
            &&& name.len() > 0
            &&& !name.contains('/')
            &&& k < 0 ==> t == name
            &&& k < 0 ==> components(t) == seq![name]
            &&& k >= 0 ==> name != dot() && components(t) == components(above).push(name)
        }),
{
    let k = last_index(t, '/');
    let name = t.skip(k + 1);
    let above = t.take(k + 1);
    lemma_last_index(t, '/');
    lemma_tail_trimmed(t);
    assert forall|i: int| 0 <= i < name.len() implies name[i] != '/' by {
        assert(name[i] == t[k + 1 + i]);
    }
    assert(!name.contains('/'));
    if k < 0 {
        assert(t =~= name);
        law_components_are_the_names(t, name);
    } else {
        if name == dot() {
            assert(name[0] == t[k + 1] && name.len() == 1);
            assert(t[t.len() - 1] == '.' && t[t.len() - 2] == '/');
            lemma_tail_trimmed(t.drop_last());
            assert(tail_trimmed(t) == tail_trimmed(t.drop_last()));
        }
        assert(name != dot());
        let q = above.drop_last();
        assert(above =~= q.push('/'));
        assert(t =~= above + name);
        assert(!is_absolute(name));
        assert(join_of(above, name) == t);
        lemma_join_components(above, name);
        lemma_single_component(name);
        assert(components(above) + seq![name] =~= components(above).push(name));
    }
}

/// The file name of a path is its last component, unless that is `/`, `.` or `..`.
pub proof fn law_file_name_is_the_last_component(path: Seq<char>)
    ensures
        file_name_of(path) == ({
            let all = components(path);
            if all.len() > 0 && all.last() != seq!['/'] && all.last() != seq!['.'] && all.last()
                != seq!['.', '.'] {
                Some(all.last())
            } else {
                None
            }
        }),
{
    let t = tail_trimmed(path);
    lemma_tail_trimmed(path);
    lemma_tail_trimmed_components(path);
    if t.len() == 0 {
        if path.len() == 0 {
            assert(path =~= Seq::<char>::empty());
            lemma_no_components();
        }
        lemma_last_index(t, '/');
        assert(last_name(path).len() == 0);
    } else {
        lemma_last_part(t);
        let name = last_name(path);
        assert(components(path).last() == name);
        assert(name != seq!['/']) by {
            if name == seq!['/'] {
                assert(name.contains(name[0]));
            }
        }
    }
}

/// The parent of a path is the path without its last component, written as the
/// path begins; the empty path and the root have none. What has no parent lies in
/// the working directory.
pub proof fn law_parent_is_without_the_last_component(path: Seq<char>)
    ensures
        parent_of(path) is None <==> components(path).len() == 0 || components(path) == seq![
            seq!['/'],
        ],
        parent_of(path) matches Some(parent) ==> components(parent) == components(path).drop_last()
            && parent.is_prefix_of(path),
        directory_of(path) == match parent_of(path) {
            Some(parent) => parent,
            None => seq!['.'],
        },
{
    let t = tail_trimmed(path);
    let none = Seq::<char>::empty();
    lemma_tail_trimmed(path);
    lemma_tail_trimmed_components(path);
    lemma_root_component();
    lemma_no_components();
    if t.len() == 0 {
        if path.len() == 0 {
            assert(path =~= none);
        }
    } else {
        lemma_last_part(t);
        lemma_last_index(t, '/');
        let k = last_index(t, '/');
        let above = t.take(k + 1);
        let p = tail_trimmed(above);
        lemma_tail_trimmed(above);
        lemma_tail_trimmed_components(above);
        let name = t.skip(k + 1);
        assert(name != root()) by {
            if name == root() {
                assert(name.contains(name[0]));
            }
        }
        if k < 0 {
            assert(above =~= none);
            assert(p =~= none);
            assert(components(path).drop_last() =~= Seq::<Seq<char>>::empty());
            assert(components(path)[0] == name);
        } else {
            assert(components(path).drop_last() =~= components(above));
            assert(components(path).last() == name);
            assert(t.take(k + 1) =~= path.take(k + 1));
            if p.len() == 0 {
                assert(above[0] == '/') by {
                    lemma_all_trimmed(above);
                }
                assert(path.subrange(0, 1) =~= root());
            }
        }
        let parent = parent_of(path)->0;
        assert(parent.is_prefix_of(path)) by {
            if !(k >= 0 && p.len() == 0) {
                assert(p == above.take(p.len() as int));
                assert(path.subrange(0, p.len() as int) =~= p);
            }
        }
    }
}

/// A path that is trimmed away whole begins with `/`.
proof fn lemma_all_trimmed(path: Seq<char>)
    requires
        path.len() > 0,
        tail_trimmed(path).len() == 0,
    ensures
        path[0] == '/',
    decreases path.len(),
{
    if path.len() > 1 {
        lemma_all_trimmed(path.drop_last());
    }
}

/// The extension is what follows the last dot of the file name, if something
/// stands before that dot.
pub proof fn law_extension_follows_the_last_dot(path: Seq<char>, e: Seq<char>)
    ensures
        extension_of(path) == Some(e) <==> exists|stem: Seq<char>|
            stem.len() > 0 && file_name_of(path) == Some(#[trigger] (stem + seq!['.'] + e))
                && !e.contains('.'),
{
    if extension_of(path) == Some(e) {
        let name = file_name_of(path)->0;
        let k = last_index(name, '.');
        lemma_last_index(name, '.');
        let stem = name.take(k);
        assert(name =~= stem + seq!['.'] + e);
        assert forall|i: int| 0 <= i < e.len() implies e[i] != '.' by {
            assert(e[i] == name[k + 1 + i]);
        }
        assert(!e.contains('.'));
    }
    if exists|stem: Seq<char>|
        stem.len() > 0 && file_name_of(path) == Some(#[trigger] (stem + seq!['.'] + e))
            && !e.contains('.') {
        let stem = choose|stem: Seq<char>|
            stem.len() > 0 && file_name_of(path) == Some(#[trigger] (stem + seq!['.'] + e))
                && !e.contains('.');
        let name = stem + seq!['.'] + e;
        assert forall|i: int| stem.len() < i < name.len() implies name[i] != '.' by {
            assert(name[i] == e[i - stem.len() - 1]);
            assert(e.contains(e[i - stem.len() - 1]));
        }
        lemma_last_index_is(name, '.', stem.len() as int);
        assert(name.skip(stem.len() as int + 1) =~= e);
    }
}

/// While a file is written, it stands beside its place under its name with `.tmp`
/// behind it, or `.file.tmp` if the name has no extension.
pub proof fn law_temporary_name(path: Seq<char>)
    requires
        file_name_of(path) is Some,
    ensures
        file_name_of(temporary_of(path)) == Some(file_name_of(path)->0 + (if extension_of(
            path,
        ) is Some {
            ".tmp"@
        } else {
            ".file.tmp"@
        })),
        parent_of(temporary_of(path)) == parent_of(path),
{
    reveal_strlit(".");
    reveal_strlit("file");
    reveal_strlit(".tmp");
    reveal_strlit(".file.tmp");
    crate::path::law_temporary_file_is_a_sibling(path);
    let t = tail_trimmed(path);
    let name = last_name(path);
    let k = last_index(t, '/');
    lemma_last_index(t, '/');
    lemma_tail_trimmed(path);
    lemma_last_index(name, '.');
    let stem = stem_length(name);
    let extension = match extension_of(path) {
        Some(e) => e,
        None => "file"@,
    };
    let base = t.take(k + 1 + stem);
    let r = temporary_of(path);
    assert(t.len() - name.len() == k + 1);
    assert(r == base + "."@ + extension + ".tmp"@);
    assert(r.last() == 'p');
    assert(tail_trimmed(r) == r);
    let expected = name + (if extension_of(path) is Some {
        ".tmp"@
    } else {
        ".file.tmp"@
    });
    assert(r =~= t.take(k + 1) + expected) by {
        if extension_of(path) is Some {
            assert(name =~= name.take(stem) + "."@ + extension);
            assert(t =~= t.take(k + 1) + name);
        } else {
            assert(stem == name.len());
            assert(".file.tmp"@ =~= "."@ + "file"@ + ".tmp"@);
            assert(t =~= t.take(k + 1) + name);
        }
    }
    assert forall|i: int| k < i < r.len() implies r[i] != '/' by {
        let j = i - k - 1;
        assert(r[i] == expected[j]);
        if j < name.len() {
            assert(expected[j] == name[j]);
            assert(name[j] == t[k + 1 + j]);
        }
    }
    assert(k >= 0 ==> r[k] == t[k]);
    lemma_last_index_is(r, '/', k);
    assert(last_name(r) =~= expected);
}

/// Texts are ordered by the first character in which they differ; a text comes
/// before those that it begins.
pub proof fn law_text_order(
    common: Seq<char>,
    c: char,
    d: char,
    a: Seq<char>,
    b: Seq<char>,
)
    ensures
        c != d ==> (text_before(common.push(c) + a, common.push(d) + b) <==> (c as u32) < (
        d as u32)),
        text_before(common, common.push(c) + a),
        !text_before(common.push(c) + a, common),
    decreases common.len(),
{
    let x = common.push(c) + a;
    let y = common.push(d) + b;
    if common.len() > 0 {
        let rest = common.drop_first();
        law_text_order(rest, c, d, a, b);
        assert(x.drop_first() =~= rest.push(c) + a);
        assert(y.drop_first() =~= rest.push(d) + b);
        assert(x[0] == common[0] && y[0] == common[0]);
    } else {
        assert(x[0] == c && y[0] == d);
    }
}

proof fn lemma_components_order(
    common: Seq<Seq<char>>,
    c: Seq<char>,
    d: Seq<char>,
    a: Seq<Seq<char>>,
    b: Seq<Seq<char>>,
)
    ensures
        c != d ==> (components_before(common.push(c) + a, common.push(d) + b)
            <==> crate::path::component_before(c, d)),
        components_before(common, common.push(c) + a),
        !components_before(common.push(c) + a, common),
    decreases common.len(),
{
    let x = common.push(c) + a;
    let y = common.push(d) + b;
    if common.len() > 0 {
        let rest = common.drop_first();
        lemma_components_order(rest, c, d, a, b);
        assert(x.drop_first() =~= rest.push(c) + a);
        assert(y.drop_first() =~= rest.push(d) + b);
        assert(x[0] == common[0] && y[0] == common[0]);
    } else {
        assert(x[0] == c && y[0] == d);
    }
}

/// Paths are ordered by the first component in which they differ: `/` first, then
/// `.`, then `..`, and then the names in the order of texts. A path comes before
/// what lies below it.
pub proof fn law_path_order(
    p: Seq<char>,
    q: Seq<char>,
    common: Seq<Seq<char>>,
    c: Seq<char>,
    d: Seq<char>,
    a: Seq<Seq<char>>,
    b: Seq<Seq<char>>,
)
    requires
        components(p) == common.push(c) + a,
    ensures
        components(q) == common.push(d) + b && c != d ==> {
            let first = |x: Seq<char>| x == seq!['/'];
            let second = |x: Seq<char>| x == seq!['.'];
            let third = |x: Seq<char>| x == seq!['.', '.'];
            let plain = |x: Seq<char>| !first(x) && !second(x) && !third(x);
            &&& first(c) ==> path_before(p, q)
            &&& second(c) && !first(d) ==> path_before(p, q)
            &&& third(c) && plain(d) ==> path_before(p, q)
            &&& plain(c) && !plain(d) ==> !path_before(p, q)
            &&& plain(c) && plain(d) ==> (path_before(p, q) <==> text_before(c, d))
        },
        components(q) == common ==> path_before(q, p) && !path_before(p, q),
{
    lemma_components_order(common, c, d, a, b);
    assert(seq!['.'].len() == 1 && seq!['.', '.'].len() == 2 && seq!['/'][0] != seq!['.'][0]);
}

} // verus!
