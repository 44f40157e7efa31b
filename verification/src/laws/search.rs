//! Searches: what is found, what is passed over, and when a search fails.
use vstd::prelude::*;

use crate::external::external_scene_fault;
use crate::laws::path::law_components_are_the_names;
use crate::laws::text::{law_joined_lists, law_split_parts_make_the_text};
use crate::path::{components, extension_of, file_name_of, is_inside, is_name, leading, names};
use crate::search::{
    advanced, inspected_view, is_left_out, law_search_covers_its_root, listed_view, relative_to,
    search_result, search_started, searched_directory, searched_entries, searched_entry, with_file,
    Disk, EntryKind, RequestView, SearchKind, SearchView,
};
use crate::text::{ascii_lowercase, joined, split};

verus! {

/// A search goes by entries that are not named like this.
pub open spec fn keeps(kind: SearchKind, path: Seq<char>) -> bool {
    match file_name_of(path) {
        None => true,
        Some(own) => match kind {
            SearchKind::Projects => own != ".git"@,
            SearchKind::Scenes => own != "node_modules"@ && own != "build"@ && own != "Build"@
                && own != ".kairo"@ && own != ".git"@,
        },
    }
}

/// Project descriptors end in `.kproject`, scenes in `.gltf` or `.glb` in small
/// letters or capitals.
pub open spec fn is_sought(kind: SearchKind, path: Seq<char>) -> bool {
    match extension_of(path) {
        None => false,
        Some(e) => match kind {
            SearchKind::Projects => e == "kproject"@,
            SearchKind::Scenes => ascii_lowercase(e) == "glb"@ || ascii_lowercase(e) == "gltf"@,
        },
    }
}

/// A search goes four directories deep for projects and eight for scenes.
pub open spec fn is_within(kind: SearchKind, directories: int) -> bool {
    match kind {
        SearchKind::Projects => directories <= 4,
        SearchKind::Scenes => directories <= 8,
    }
}

/// `path` is an entry of the directory at `dir`, not passed over.
pub open spec fn holds(disk: Disk, kind: SearchKind, dir: Seq<char>, path: Seq<char>) -> bool {
    &&& (disk.lists)(dir) matches Ok(entries) && entries.contains(Ok::<_, Seq<char>>(path))
    &&& keeps(kind, path)
}

/// From one directory one goes down into another, not by a symbolic link.
pub open spec fn is_step(disk: Disk, kind: SearchKind, dir: Seq<char>, next: Seq<char>) -> bool {
    holds(disk, kind, dir, next) && (disk.kinds)(next) == Ok::<_, Seq<char>>(EntryKind::Directory)
}

/// Directories that lead down, one into the next.
pub open spec fn leads_down(disk: Disk, kind: SearchKind, dirs: Seq<Seq<char>>) -> bool {
    forall|i: int, j: int|
        0 <= i && j == i + 1 && j < dirs.len() ==> #[trigger] is_step(disk, kind, dirs[i], dirs[j])
}

/// The file lies below the root through these directories, the root the first.
pub open spec fn lies_below(
    disk: Disk,
    kind: SearchKind,
    root: Seq<char>,
    dirs: Seq<Seq<char>>,
    file: Seq<char>,
) -> bool {
    &&& dirs.len() > 0 && dirs[0] == root
    &&& leads_down(disk, kind, dirs)
    &&& is_within(kind, dirs.len() - 1)
    &&& holds(disk, kind, dirs.last(), file)
    &&& (disk.kinds)(file) == Ok::<_, Seq<char>>(EntryKind::RegularFile)
    &&& is_sought(kind, file)
}

/// How a file is put down: a project by its path, a scene by its path below the
/// root.
pub open spec fn is_put_down(
    kind: SearchKind,
    root: Seq<char>,
    file: Seq<char>,
    item: Seq<char>,
) -> bool {
    match kind {
        SearchKind::Projects => item == file,
        SearchKind::Scenes => relative_to(file, root) == Some(item),
    }
}

pub open spec fn stands_for_a_file(
    disk: Disk,
    kind: SearchKind,
    root: Seq<char>,
    item: Seq<char>,
) -> bool {
    exists|dirs: Seq<Seq<char>>, file: Seq<char>| #[trigger]
        lies_below(disk, kind, root, dirs, file) && is_put_down(kind, root, file, item)
}

/// Why a search fails in a directory.
pub open spec fn fails_in(
    disk: Disk,
    kind: SearchKind,
    root: Seq<char>,
    dir: Seq<char>,
    e: Seq<char>,
) -> bool {
    ||| (disk.lists)(dir) == Err::<Seq<Result<Seq<char>, Seq<char>>>, _>(e)
    ||| (disk.lists)(dir) matches Ok(entries) && entries.contains(Err::<Seq<char>, _>(e))
    ||| exists|file: Seq<char>| #[trigger]
        holds(disk, kind, dir, file) && ((disk.kinds)(file) == Err::<EntryKind, _>(e) || {
            &&& kind is Scenes && is_sought(kind, file)
            &&& (disk.kinds)(file) == Ok::<_, Seq<char>>(EntryKind::RegularFile)
            &&& match relative_to(file, root) {
                None => e == "External scene escaped the cloned repository"@,
                Some(item) => external_scene_fault(item) == Some(e) || e
                    == "External repository contains more than 256 glTF/GLB scenes; specify a narrower entry scene"@,
            }
        })
}

/// A search fails for what it met in a directory that it came to.
pub open spec fn fails_for(
    disk: Disk,
    kind: SearchKind,
    root: Seq<char>,
    e: Seq<char>,
) -> bool {
    exists|dirs: Seq<Seq<char>>|
        dirs.len() > 0 && dirs[0] == root && #[trigger] leads_down(disk, kind, dirs) && is_within(
            kind,
            dirs.len() - 1,
        ) && fails_in(disk, kind, root, dirs.last(), e)
}

spec fn is_grown(
    disk: Disk,
    kind: SearchKind,
    root: Seq<char>,
    found: Seq<Seq<char>>,
    result: Result<Seq<Seq<char>>, Seq<char>>,
) -> bool {
    match result {
        Err(e) => fails_for(disk, kind, root, e),
        Ok(more) => found.is_prefix_of(more) && forall|i: int|
            found.len() <= i < more.len() ==> stands_for_a_file(
                disk,
                kind,
                root,
                #[trigger] more[i],
            ),
    }
}

proof fn lemma_grown_by_directory(
    disk: Disk,
    kind: SearchKind,
    root: Seq<char>,
    dirs: Seq<Seq<char>>,
    found: Seq<Seq<char>>,
)
    requires
        dirs.len() > 0 && dirs[0] == root,
        leads_down(disk, kind, dirs),
        is_within(kind, dirs.len() - 1),
    ensures
        is_grown(
            disk,
            kind,
            root,
            found,
            searched_directory(disk, kind, root, dirs.last(), (dirs.len() - 1) as nat, found),
        ),
    decreases 9 - dirs.len(), 2int, 0int,
{
    match (disk.lists)(dirs.last()) {
        Err(e) => {
            assert(fails_in(disk, kind, root, dirs.last(), e));
        },
        Ok(entries) => {
            lemma_grown_by_entries(disk, kind, root, dirs, entries, entries, found);
        },
    }
}

proof fn lemma_grown_by_entries(
    disk: Disk,
    kind: SearchKind,
    root: Seq<char>,
    dirs: Seq<Seq<char>>,
    all: Seq<Result<Seq<char>, Seq<char>>>,
    entries: Seq<Result<Seq<char>, Seq<char>>>,
    found: Seq<Seq<char>>,
)
    requires
        dirs.len() > 0 && dirs[0] == root,
        leads_down(disk, kind, dirs),
        is_within(kind, dirs.len() - 1),
        (disk.lists)(dirs.last()) == Ok::<_, Seq<char>>(all),
        forall|i: int| 0 <= i < entries.len() ==> all.contains(#[trigger] entries[i]),
    ensures
        is_grown(
            disk,
            kind,
            root,
            found,
            searched_entries(disk, kind, root, entries, (dirs.len() - 1) as nat, found),
        ),
    decreases 9 - dirs.len(), 1int, entries.len(),
{
    let depth = (dirs.len() - 1) as nat;
    if entries.len() > 0 {
        assert(all.contains(entries[0]));
        let rest = entries.drop_first();
        assert forall|i: int| 0 <= i < rest.len() implies all.contains(#[trigger] rest[i]) by {
            assert(rest[i] == entries[i + 1]);
        }
        match entries[0] {
            Err(e) => {
                assert(fails_in(disk, kind, root, dirs.last(), e));
            },
            Ok(path) => {
                if is_left_out(kind, path) {
                    lemma_grown_by_entries(disk, kind, root, dirs, all, rest, found);
                } else {
                    assert(holds(disk, kind, dirs.last(), path));
                    lemma_grown_by_entry(disk, kind, root, dirs, path, found);
                    if let Ok(more) = searched_entry(disk, kind, root, path, depth, found) {
                        lemma_grown_by_entries(disk, kind, root, dirs, all, rest, more);
                        if let Ok(most) = searched_entries(
                            disk,
                            kind,
                            root,
                            rest,
                            depth,
                            more,
                        ) {
                            assert forall|i: int|
                                found.len() <= i < most.len() implies stands_for_a_file(
                                disk,
                                kind,
                                root,
                                #[trigger] most[i],
                            ) by {
                                if i < more.len() {
                                    assert(most[i] == more[i]);
                                }
                            }
                        }
                    }
                }
            },
        }
    }
}

proof fn lemma_grown_by_entry(
    disk: Disk,
    kind: SearchKind,
    root: Seq<char>,
    dirs: Seq<Seq<char>>,
    path: Seq<char>,
    found: Seq<Seq<char>>,
)
    requires
        dirs.len() > 0 && dirs[0] == root,
        leads_down(disk, kind, dirs),
        is_within(kind, dirs.len() - 1),
        holds(disk, kind, dirs.last(), path),
    ensures
        is_grown(
            disk,
            kind,
            root,
            found,
            searched_entry(disk, kind, root, path, (dirs.len() - 1) as nat, found),
        ),
    decreases 9 - dirs.len(), 0int, 0int,
{
    match (disk.kinds)(path) {
        Err(e) => {
            assert(fails_in(disk, kind, root, dirs.last(), e));
        },
        Ok(EntryKind::Directory) => {
            let more = dirs.push(path);
            if is_within(kind, more.len() - 1) {
                assert forall|i: int, j: int|
                    0 <= i && j == i + 1 && j < more.len() implies #[trigger] is_step(
                    disk,
                    kind,
                    more[i],
                    more[j],
                ) by {
                    if j < dirs.len() {
                        assert(is_step(disk, kind, dirs[i], dirs[j]));
                    }
                }
                lemma_grown_by_directory(disk, kind, root, more, found);
            }
        },
        Ok(EntryKind::RegularFile) => {
            match with_file(kind, root, path, found) {
                Ok(more) => {
                    if more.len() > found.len() {
                        assert(lies_below(disk, kind, root, dirs, path));
                        assert(is_put_down(kind, root, path, more[found.len() as int]));
                    }
                },
                Err(e) => {
                    assert(fails_in(disk, kind, root, dirs.last(), e));
                },
            }
        },
        Ok(_) => {},
    }
}

/// Everything that a search found is a file of the kind that was sought, that
/// lies below the root through at most four or eight directories, none passed over
/// and none a symbolic link. A search that failed met what it failed for in one
/// of these directories.
pub proof fn law_only_what_lies_below_is_found(disk: Disk, kind: SearchKind, root: Seq<char>)
    ensures
        match search_result(disk, search_started(kind, root)) {
            Err(e) => fails_for(disk, kind, root, e),
            Ok(found) => forall|i: int|
                0 <= i < found.len() ==> stands_for_a_file(disk, kind, root, #[trigger] found[i]),
        },
{
    law_search_covers_its_root(disk, kind, root);
    let dirs = seq![root];
    assert(dirs.last() == root);
    assert(leads_down(disk, kind, dirs));
    lemma_grown_by_directory(disk, kind, root, dirs, seq![]);
}

proof fn lemma_kept_by_directory(
    disk: Disk,
    kind: SearchKind,
    root: Seq<char>,
    path: Seq<char>,
    depth: nat,
    found: Seq<Seq<char>>,
)
    requires
        searched_directory(disk, kind, root, path, depth, found) is Ok,
        is_within(kind, depth as int),
    ensures
        found.is_prefix_of(searched_directory(disk, kind, root, path, depth, found)->Ok_0),
    decreases 9 - depth, 2int, 0int,
{
    if let Ok(entries) = (disk.lists)(path) {
        lemma_kept_by_entries(disk, kind, root, entries, depth, found);
    }
}

proof fn lemma_kept_by_entries(
    disk: Disk,
    kind: SearchKind,
    root: Seq<char>,
    entries: Seq<Result<Seq<char>, Seq<char>>>,
    depth: nat,
    found: Seq<Seq<char>>,
)
    requires
        searched_entries(disk, kind, root, entries, depth, found) is Ok,
        is_within(kind, depth as int),
    ensures
        found.is_prefix_of(searched_entries(disk, kind, root, entries, depth, found)->Ok_0),
    decreases 9 - depth, 1int, entries.len(),
{
    if entries.len() > 0 {
        let path = entries[0]->Ok_0;
        if is_left_out(kind, path) {
            lemma_kept_by_entries(disk, kind, root, entries.drop_first(), depth, found);
        } else {
            lemma_kept_by_entry(disk, kind, root, path, depth, found);
            let more = searched_entry(disk, kind, root, path, depth, found)->Ok_0;
            lemma_kept_by_entries(disk, kind, root, entries.drop_first(), depth, more);
        }
    }
}

proof fn lemma_kept_by_entry(
    disk: Disk,
    kind: SearchKind,
    root: Seq<char>,
    path: Seq<char>,
    depth: nat,
    found: Seq<Seq<char>>,
)
    requires
        searched_entry(disk, kind, root, path, depth, found) is Ok,
        is_within(kind, depth as int),
    ensures
        found.is_prefix_of(searched_entry(disk, kind, root, path, depth, found)->Ok_0),
    decreases 9 - depth, 0int, 0int,
{
    if (disk.kinds)(path) == Ok::<_, Seq<char>>(EntryKind::Directory) && is_within(
        kind,
        depth as int + 1,
    ) {
        lemma_kept_by_directory(disk, kind, root, path, depth + 1, found);
    }
}

/// What stands at entry `at` was looked at, and what came of it was kept.
proof fn lemma_entry_is_seen(
    disk: Disk,
    kind: SearchKind,
    root: Seq<char>,
    entries: Seq<Result<Seq<char>, Seq<char>>>,
    depth: nat,
    found: Seq<Seq<char>>,
    at: int,
) -> (before: Seq<Seq<char>>)
    requires
        searched_entries(disk, kind, root, entries, depth, found) is Ok,
        is_within(kind, depth as int),
        0 <= at < entries.len(),
    ensures
        entries[at] is Ok,
        keeps(kind, entries[at]->Ok_0) ==> {
            let all = searched_entries(disk, kind, root, entries, depth, found)->Ok_0;
            let here = searched_entry(disk, kind, root, entries[at]->Ok_0, depth, before);
            here is Ok && here->Ok_0.is_prefix_of(all)
        },
    decreases entries.len(),
{
    let path = entries[0]->Ok_0;
    let rest = entries.drop_first();
    let more = if is_left_out(kind, path) {
        found
    } else {
        searched_entry(disk, kind, root, path, depth, found)->Ok_0
    };
    lemma_kept_by_entries(disk, kind, root, rest, depth, more);
    if at == 0 {
        found
    } else {
        assert(rest[at - 1] == entries[at]);
        lemma_entry_is_seen(disk, kind, root, rest, depth, more, at - 1)
    }
}

/// The directory to which `dirs` lead was gone through, and what came of it was
/// kept.
proof fn lemma_directory_is_seen(
    disk: Disk,
    kind: SearchKind,
    root: Seq<char>,
    dirs: Seq<Seq<char>>,
    depth: nat,
    found: Seq<Seq<char>>,
) -> (before: Seq<Seq<char>>)
    requires
        dirs.len() > 0,
        leads_down(disk, kind, dirs),
        is_within(kind, depth + dirs.len() - 1),
        searched_directory(disk, kind, root, dirs[0], depth, found) is Ok,
    ensures
        ({
            let all = searched_directory(disk, kind, root, dirs[0], depth, found)->Ok_0;
            let here = searched_directory(
                disk,
                kind,
                root,
                dirs.last(),
                (depth + dirs.len() - 1) as nat,
                before,
            );
            here is Ok && here->Ok_0.is_prefix_of(all)
        }),
    decreases dirs.len(),
{
    if dirs.len() == 1 {
        found
    } else {
        assert(is_step(disk, kind, dirs[0], dirs[1]));
        let entries = (disk.lists)(dirs[0])->Ok_0;
        let at = choose|at: int|
            0 <= at < entries.len() && entries[at] == Ok::<_, Seq<char>>(dirs[1]);
        let all = searched_directory(disk, kind, root, dirs[0], depth, found)->Ok_0;
        assert(searched_entries(disk, kind, root, entries, depth, found) == Ok::<_, Seq<char>>(
            all,
        ));
        let mid = lemma_entry_is_seen(disk, kind, root, entries, depth, found, at);
        let rest = dirs.drop_first();
        assert(rest[0] == dirs[1]);
        assert(rest.last() == dirs.last());
        assert forall|i: int, j: int|
            0 <= i && j == i + 1 && j < rest.len() implies #[trigger] is_step(
            disk,
            kind,
            rest[i],
            rest[j],
        ) by {
            assert(is_step(disk, kind, dirs[i + 1], dirs[j + 1]));
        }
        assert(searched_entry(disk, kind, root, dirs[1], depth, mid) == searched_directory(
            disk,
            kind,
            root,
            dirs[1],
            depth + 1,
            mid,
        ));
        lemma_directory_is_seen(disk, kind, root, rest, depth + 1, mid)
    }
}

/// A search that is over has gone through every directory that lies at most four
/// or eight levels below the root, passed over none but those named so, could list
/// each and look at each entry, and has found every file of the kind that was
/// sought there.
pub proof fn law_finished_search_has_found_all(
    disk: Disk,
    kind: SearchKind,
    root: Seq<char>,
    dirs: Seq<Seq<char>>,
)
    requires
        dirs.len() > 0 && dirs[0] == root,
        leads_down(disk, kind, dirs),
        is_within(kind, dirs.len() - 1),
        search_result(disk, search_started(kind, root)) is Ok,
    ensures
        (disk.lists)(dirs.last()) matches Ok(entries) && forall|i: int|
            0 <= i < entries.len() ==> #[trigger] entries[i] is Ok,
        forall|file: Seq<char>| #[trigger]
            holds(disk, kind, dirs.last(), file) ==> (disk.kinds)(file) is Ok,
        forall|file: Seq<char>| #[trigger]
            lies_below(disk, kind, root, dirs, file) ==> exists|item: Seq<char>|
                is_put_down(kind, root, file, item) && #[trigger] search_result(
                    disk,
                    search_started(kind, root),
                )->Ok_0.contains(item),
{
    law_search_covers_its_root(disk, kind, root);
    let depth = (dirs.len() - 1) as nat;
    let none = Seq::<Seq<char>>::empty();
    let all = searched_directory(disk, kind, root, root, 0, none)->Ok_0;
    let before = lemma_directory_is_seen(disk, kind, root, dirs, 0, none);
    let here = searched_directory(disk, kind, root, dirs.last(), depth, before)->Ok_0;
    let entries = (disk.lists)(dirs.last())->Ok_0;
    assert(searched_entries(disk, kind, root, entries, depth, before) == Ok::<_, Seq<char>>(here));
    assert forall|i: int| 0 <= i < entries.len() implies #[trigger] entries[i] is Ok by {
        let mid = lemma_entry_is_seen(disk, kind, root, entries, depth, before, i);
    }
    assert forall|file: Seq<char>| #[trigger] holds(disk, kind, dirs.last(), file) implies (
    disk.kinds)(file) is Ok by {
        let at = choose|at: int|
            0 <= at < entries.len() && entries[at] == Ok::<_, Seq<char>>(file);
        let mid = lemma_entry_is_seen(disk, kind, root, entries, depth, before, at);
    }
    assert forall|file: Seq<char>| #[trigger]
        lies_below(disk, kind, root, dirs, file) implies exists|item: Seq<char>|
        is_put_down(kind, root, file, item) && #[trigger] search_result(
            disk,
            search_started(kind, root),
        )->Ok_0.contains(item) by {
        let at = choose|at: int|
            0 <= at < entries.len() && entries[at] == Ok::<_, Seq<char>>(file);
        let mid = lemma_entry_is_seen(disk, kind, root, entries, depth, before, at);
        let one = searched_entry(disk, kind, root, file, depth, mid)->Ok_0;
        assert(with_file(kind, root, file, mid) == Ok::<_, Seq<char>>(one));
        let item = one[mid.len() as int];
        assert(is_put_down(kind, root, file, item));
        assert(here[mid.len() as int] == item);
        assert(all[mid.len() as int] == item);
        assert(all.contains(item));
    }
}

/// On a disk where every look succeeds a search for projects succeeds, and one for
/// scenes fails only for a scene that lies outside, that has a faulty path or that
/// is one too many.
pub proof fn law_search_fails_only_for_a_reason(disk: Disk, kind: SearchKind, root: Seq<char>)
    requires
        forall|dir: Seq<char>| #[trigger] (disk.lists)(dir) is Ok,
        forall|dir: Seq<char>, i: int|
            0 <= i < (disk.lists)(dir)->Ok_0.len() ==> #[trigger] (disk.lists)(dir)->Ok_0[i] is Ok,
        forall|path: Seq<char>| #[trigger] (disk.kinds)(path) is Ok,
    ensures
        kind is Projects ==> search_result(disk, search_started(kind, root)) is Ok,
        search_result(disk, search_started(kind, root)) matches Err(e) ==> exists|
            dirs: Seq<Seq<char>>,
            file: Seq<char>,
        |
            #![trigger lies_below(disk, kind, root, dirs, file)]
            lies_below(disk, kind, root, dirs, file) && match relative_to(file, root) {
                None => e == "External scene escaped the cloned repository"@,
                Some(item) => external_scene_fault(item) == Some(e) || e
                    == "External repository contains more than 256 glTF/GLB scenes; specify a narrower entry scene"@,
            },
{
    law_only_what_lies_below_is_found(disk, kind, root);
    if let Err(e) = search_result(disk, search_started(kind, root)) {
        let dirs = choose|dirs: Seq<Seq<char>>|
            dirs.len() > 0 && dirs[0] == root && #[trigger] leads_down(disk, kind, dirs)
                && is_within(kind, dirs.len() - 1) && fails_in(disk, kind, root, dirs.last(), e);
        let dir = dirs.last();
        assert((disk.lists)(dir) is Ok);
        let entries = (disk.lists)(dir)->Ok_0;
        if entries.contains(Err::<Seq<char>, _>(e)) {
            let i = choose|i: int|
                0 <= i < entries.len() && entries[i] == Err::<Seq<char>, _>(e);
            assert((disk.lists)(dir)->Ok_0[i] is Ok);
        }
        let file = choose|file: Seq<char>| #[trigger]
            holds(disk, kind, dir, file) && ((disk.kinds)(file) == Err::<EntryKind, _>(e) || {
                &&& kind is Scenes && is_sought(kind, file)
                &&& (disk.kinds)(file) == Ok::<_, Seq<char>>(EntryKind::RegularFile)
                &&& match relative_to(file, root) {
                    None => e == "External scene escaped the cloned repository"@,
                    Some(item) => external_scene_fault(item) == Some(e) || e
                        == "External repository contains more than 256 glTF/GLB scenes; specify a narrower entry scene"@,
                }
            });
        assert((disk.kinds)(file) is Ok);
        assert(lies_below(disk, kind, root, dirs, file));
    }
}

/// A file is put down behind what was found before, once; a scene is one too many
/// if 256 were found before it.
pub proof fn law_file_is_put_down_once(
    kind: SearchKind,
    root: Seq<char>,
    file: Seq<char>,
    found: Seq<Seq<char>>,
)
    ensures
        match with_file(kind, root, file, found) {
            Ok(more) => if is_sought(kind, file) {
                more.len() == found.len() + 1 && more.drop_last() == found && is_put_down(
                    kind,
                    root,
                    file,
                    more.last(),
                ) && (kind is Scenes ==> more.len() <= 256 && external_scene_fault(
                    more.last(),
                ) is None)
            } else {
                more == found
            },
            Err(e) => kind is Scenes && is_sought(kind, file) && match relative_to(file, root) {
                None => e == "External scene escaped the cloned repository"@,
                Some(item) => match external_scene_fault(item) {
                    Some(fault) => e == fault,
                    None => found.len() >= 256 && e
                        == "External repository contains more than 256 glTF/GLB scenes; specify a narrower entry scene"@,
                },
            },
        },
{
    if let Ok(more) = with_file(kind, root, file, found) {
        if more.len() > found.len() {
            assert(more.drop_last() =~= found);
        }
    }
}

pub proof fn lemma_joined_names(all: Seq<Seq<char>>)
    requires
        all.len() > 0,
        forall|i: int|
            0 <= i < all.len() ==> !(#[trigger] all[i]).contains('/') && all[i].len() > 0 && all[i]
                != seq!['.'],
    ensures
        joined(all, "/"@).len() > 0,
        components(joined(all, "/"@)) == all,
    decreases all.len(),
{
    reveal_strlit("/");
    assert("/"@ =~= seq!['/']);
    let last = all.last();
    assert(all[all.len() - 1] == last);
    if all.len() == 1 {
        assert(all =~= seq![last]);
        crate::laws::text::law_joined_ends(last, "/"@);
        law_components_are_the_names(last, last);
    } else {
        let less = all.drop_last();
        assert forall|i: int| 0 <= i < less.len() implies !(#[trigger] less[i]).contains('/')
            && less[i].len() > 0 && less[i] != seq!['.'] by {
            assert(less[i] == all[i]);
        }
        lemma_joined_names(less);
        assert(all =~= less + seq![last]);
        law_joined_lists(less, seq![last], "/"@);
        crate::laws::text::law_joined_ends(last, "/"@);
        let base = joined(less, "/"@);
        assert(joined(all, "/"@) =~= base.push('/') + last);
        law_components_are_the_names(base, last);
    }
}

/// A path below a base is put down by the names that it has behind those of the
/// base; one that is not below it is not.
pub proof fn law_path_below_a_base(path: Seq<char>, base: Seq<char>)
    requires
        components(base).len() > 0,
    ensures
        relative_to(path, base) is Some <==> is_inside(path, base),
        relative_to(path, base) matches Some(below) ==> components(base) + components(below)
            == components(path),
{
    let all = components(path);
    let n = components(base).len() as int;
    if is_inside(path, base) {
        let rest = all.skip(n);
        assert(all.take(n) =~= components(base)) by {
            crate::laws::path::law_paths_are_their_components(path, base);
        }
        assert(all =~= components(base) + rest);
        law_split_parts_make_the_text(path, '/');
        assert forall|i: int| 0 <= i < rest.len() implies !(#[trigger] rest[i]).contains('/')
            && rest[i].len() > 0 && rest[i] != seq!['.'] by {
            assert(rest[i] == all[n + i]);
            let own = names(path);
            let at = n + i - leading(path).len();
            assert(all[n + i] == own[at]);
            assert(own.contains(own[at]));
            split(path, '/').lemma_filter_contains_rev(|name: Seq<char>| is_name(name), own[at]);
            split(path, '/').lemma_filter_pred(|name: Seq<char>| is_name(name), at);
            let k = choose|k: int|
                0 <= k < split(path, '/').len() && split(path, '/')[k] == own[at];
            assert(!split(path, '/')[k].contains('/'));
        }
        if rest.len() > 0 {
            lemma_joined_names(rest);
        } else {
            assert(rest =~= Seq::<Seq<char>>::empty());
            crate::path::lemma_no_components();
        }
    }
}

/// An answer to another question changes nothing; and no answer takes away from
/// what was found.
pub proof fn law_search_goes_on_by_its_answers(
    s: SearchView,
    listing: Result<Seq<Result<Seq<char>, Seq<char>>>, Seq<char>>,
    answer: Result<EntryKind, Seq<char>>,
)
    ensures
        !(s.request is List) ==> listed_view(s, listing) == s,
        !(s.request is Inspect) ==> inspected_view(s, answer) == s,
        s.request is List && listing is Err ==> listed_view(s, listing).request
            == RequestView::Failed(listing->Err_0),
        s.request is Inspect && answer is Err ==> inspected_view(s, answer).request
            == RequestView::Failed(answer->Err_0),
{
}

/// Entries are taken in the order in which they are listed: the next that is not
/// passed over is looked at, and one that could not be read fails the search. A
/// search without entries left is over.
pub proof fn law_entries_are_taken_in_order(
    s: SearchView,
    entry: Result<Seq<char>, Seq<char>>,
    rest: Seq<Result<Seq<char>, Seq<char>>>,
)
    requires
        s.request is List,
    ensures
        ({
            let none = Seq::<Result<Seq<char>, Seq<char>>>::empty();
            let next = listed_view(s, Ok(seq![entry] + rest));
            &&& next.kind == s.kind && next.root == s.root
            &&& s.stack.len() == 0 ==> listed_view(s, Ok(none)).request is Finished
            &&& entry matches Err(e) ==> next.request == RequestView::Failed(e)
            &&& entry matches Ok(path) ==> {
                &&& keeps(s.kind, path) ==> next.request == RequestView::Inspect(path)
                    && next.found == s.found && next.stack == s.stack.push(rest)
                &&& !keeps(s.kind, path) ==> next == listed_view(s, Ok(rest))
            }
        }),
{
    let none = Seq::<Result<Seq<char>, Seq<char>>>::empty();
    let all = seq![entry] + rest;
    let opened = SearchView { stack: s.stack.push(all), ..s };
    assert(opened.stack.last() == all);
    assert(opened.stack.drop_last() =~= s.stack);
    assert(all.drop_first() =~= rest);
    assert(s.stack.push(rest).last() == rest);
    assert(s.stack.push(none).last() == none);
    assert(s.stack.push(none).drop_last() =~= s.stack);
    reveal_with_fuel(advanced, 3);
    lemma_advanced_keeps(opened);
}

/// A directory is gone into where it stands, just if it is not more than four or
/// eight levels below the root.
pub proof fn law_directory_is_gone_into(s: SearchView, path: Seq<char>)
    requires
        s.request == RequestView::Inspect(path),
    ensures
        ({
            let next = inspected_view(s, Ok(EntryKind::Directory));
            &&& is_within(s.kind, s.stack.len() as int) ==> next == (SearchView {
                request: RequestView::List(path),
                ..s
            })
            &&& !is_within(s.kind, s.stack.len() as int) ==> !(next.request is List)
            &&& next.found == s.found
        }),
{
    lemma_advanced_keeps(s);
}

proof fn lemma_advanced_keeps(s: SearchView)
    ensures
        advanced(s).kind == s.kind && advanced(s).root == s.root && advanced(s).found == s.found,
        !(advanced(s).request is List),
    decreases s.stack.len(), s.stack.last().len(),
{
    if s.stack.len() > 0 {
        let top = s.stack.last();
        let above = s.stack.drop_last();
        if top.len() == 0 {
            lemma_advanced_keeps(SearchView { stack: above, ..s });
        } else if let Ok(path) = top[0] {
            if is_left_out(s.kind, path) {
                lemma_advanced_keeps(SearchView { stack: above.push(top.drop_first()), ..s });
            }
        }
    }
}

} // verus!
