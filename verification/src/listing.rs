//! Lists of paths.
use vstd::prelude::*;

use crate::descriptor::opt_text;
use crate::path::{law_path_order_is_total, path_before, path_less};
use crate::text::{holds_text, texts};

verus! {

/// The first of the paths that is among the existing files, from `at` on.
pub open spec fn first_existing(
    paths: Seq<Seq<char>>,
    existing: Seq<Seq<char>>,
    at: int,
) -> Option<Seq<char>>
    decreases paths.len() - at,
{
    if at < 0 || at >= paths.len() {
        None
    } else if existing.contains(paths[at]) {
        Some(paths[at])
    } else {
        first_existing(paths, existing, at + 1)
    }
}

/// Finds the first path that exists.
pub fn find_existing(paths: &Vec<String>, existing: &Vec<String>) -> (r: Option<String>)
    ensures
        opt_text(r) == first_existing(texts(paths@), texts(existing@), 0),
{
    let mut i: usize = 0;
    while i < paths.len()
        invariant
            i <= paths.len(),
            first_existing(texts(paths@), texts(existing@), 0) == first_existing(
                texts(paths@),
                texts(existing@),
                i as int,
            ),
        decreases paths.len() - i,
    {
        assert(texts(paths@)[i as int] == paths@[i as int]@);
        if holds_text(existing, paths[i].as_str()) {
            return Some(paths[i].clone());
        }
        i += 1;
    }
    None
}

pub proof fn lemma_first_existing(paths: Seq<Seq<char>>, existing: Seq<Seq<char>>, at: int)
    requires
        0 <= at <= paths.len(),
    ensures
        match first_existing(paths, existing, at) {
            Some(path) => exists|i: int|
                at <= i < paths.len() && #[trigger] paths[i] == path && existing.contains(path)
                    && forall|j: int| at <= j < i ==> !existing.contains(#[trigger] paths[j]),
            None => forall|j: int|
                at <= j < paths.len() ==> !existing.contains(#[trigger] paths[j]),
        },
    decreases paths.len() - at,
{
    if at < paths.len() {
        if existing.contains(paths[at]) {
            assert(paths[at] == paths[at]);
        } else {
            lemma_first_existing(paths, existing, at + 1);
            if let Some(path) = first_existing(paths, existing, at + 1) {
                let i = choose|i: int|
                    at + 1 <= i < paths.len() && #[trigger] paths[i] == path && existing.contains(
                        path,
                    ) && forall|j: int| at + 1 <= j < i ==> !existing.contains(#[trigger] paths[j]);
                assert(paths[i] == path);
            }
        }
    }
}

// ---------------------------------------------------------------------------
// Sorting
// ---------------------------------------------------------------------------
/// A list with one more path, put before all that it comes before.
pub open spec fn with_path(list: Seq<Seq<char>>, x: Seq<char>) -> Seq<Seq<char>>
    decreases list.len(),
{
    if list.len() == 0 || !path_before(x, list.last()) {
        list.push(x)
    } else {
        with_path(list.drop_last(), x).push(list.last())
    }
}

/// Paths in their order; those that are the same path stay in theirs.
pub open spec fn sorted_paths(list: Seq<Seq<char>>) -> Seq<Seq<char>>
    decreases list.len(),
{
    if list.len() == 0 {
        list
    } else {
        with_path(sorted_paths(list.drop_last()), list.last())
    }
}

proof fn lemma_with_path_is_insert(list: Seq<Seq<char>>, x: Seq<char>, at: int)
    requires
        0 <= at <= list.len(),
        forall|j: int| at <= j < list.len() ==> path_before(x, #[trigger] list[j]),
        at > 0 ==> !path_before(x, list[at - 1]),
    ensures
        with_path(list, x) == list.insert(at, x),
    decreases list.len(),
{
    if at == list.len() {
        assert(list.insert(at, x) =~= list.push(x));
    } else {
        let less = list.drop_last();
        assert(path_before(x, list[list.len() - 1]));
        assert forall|j: int| at <= j < less.len() implies path_before(x, #[trigger] less[j]) by {
            assert(less[j] == list[j]);
        }
        lemma_with_path_is_insert(less, x, at);
        assert(less.insert(at, x).push(list.last()) =~= list.insert(at, x));
    }
}

pub fn insert_path(list: &mut Vec<String>, x: String)
    ensures
        texts(final(list)@) == with_path(texts(old(list)@), x@),
{
    let ghost before = list@;
    let ghost views = texts(list@);
    let mut at: usize = list.len();
    while at > 0 && path_less(x.as_str(), list[at - 1].as_str())
        invariant
            at <= list.len(),
            list@ == before,
            views == texts(before),
            forall|j: int| at <= j < views.len() ==> path_before(x@, #[trigger] views[j]),
        decreases at,
    {
        assert(views[at - 1] == list@[at - 1]@);
        at -= 1;
    }
    proof {
        if at > 0 {
            assert(views[at - 1] == list@[at - 1]@);
        }
        lemma_with_path_is_insert(views, x@, at as int);
    }
    list.insert(at, x);
    assert(texts(list@) =~= views.insert(at as int, x@));
}

/// The paths in their order.
pub fn sort_paths(list: &Vec<String>) -> (r: Vec<String>)
    ensures
        texts(r@) == sorted_paths(texts(list@)),
{
    let ghost all = texts(list@);
    let mut r: Vec<String> = Vec::new();
    let mut i: usize = 0;
    proof {
        assert(texts(r@) =~= Seq::<Seq<char>>::empty());
        assert(all.take(0) =~= Seq::<Seq<char>>::empty());
    }
    while i < list.len()
        invariant
            i <= list.len(),
            all == texts(list@),
            texts(r@) == sorted_paths(all.take(i as int)),
        decreases list.len() - i,
    {
        proof {
            assert(all[i as int] == list@[i as int]@);
            assert(all.take(i + 1).drop_last() =~= all.take(i as int));
        }
        insert_path(&mut r, list[i].clone());
        i += 1;
    }
    assert(all.take(all.len() as int) =~= all);
    r
}

/// No path stands behind one that it comes before.
pub open spec fn is_sorted(list: Seq<Seq<char>>) -> bool {
    forall|i: int, j: int|
        0 <= i < j < list.len() ==> !path_before(#[trigger] list[j], #[trigger] list[i])
}

pub proof fn lemma_with_path(list: Seq<Seq<char>>, x: Seq<char>)
    requires
        is_sorted(list),
    ensures
        is_sorted(with_path(list, x)),
        with_path(list, x).len() == list.len() + 1,
        with_path(list, x).to_multiset() == list.to_multiset().insert(x),
        forall|i: int|
            0 <= i < with_path(list, x).len() ==> (#[trigger] with_path(list, x)[i] == x
                || list.contains(with_path(list, x)[i])),
    decreases list.len(),
{
    broadcast use vstd::seq_lib::group_to_multiset_ensures;

    let r = with_path(list, x);
    if list.len() == 0 || !path_before(x, list.last()) {
        assert forall|i: int, j: int| 0 <= i < j < r.len() implies !path_before(
            #[trigger] r[j],
            #[trigger] r[i],
        ) by {
            if j == list.len() {
                law_path_order_is_total(x, list[i], list.last());
                law_path_order_is_total(list[i], list.last(), x);
                law_path_order_is_total(x, list.last(), list[i]);
                if i < list.len() - 1 {
                    assert(!path_before(list[list.len() - 1], list[i]));
                }
            }
        }
    } else {
        let less = list.drop_last();
        let last = list.last();
        lemma_with_path(less, x);
        let t = with_path(less, x);
        assert forall|i: int, j: int| 0 <= i < j < r.len() implies !path_before(
            #[trigger] r[j],
            #[trigger] r[i],
        ) by {
            if j == t.len() {
                if t[i] == x {
                    law_path_order_is_total(x, last, x);
                } else {
                    let k = choose|k: int| 0 <= k < less.len() && less[k] == t[i];
                    assert(list[k] == t[i]);
                    assert(!path_before(list[list.len() - 1], list[k]));
                }
            } else {
                assert(r[j] == t[j] && r[i] == t[i]);
            }
        }
        assert forall|i: int| 0 <= i < r.len() implies (#[trigger] r[i] == x || list.contains(
            r[i],
        )) by {
            if i < t.len() {
                assert(r[i] == t[i]);
                if t[i] != x {
                    let k = choose|k: int| 0 <= k < less.len() && less[k] == t[i];
                    assert(list[k] == t[i]);
                }
            } else {
                assert(list[list.len() - 1] == r[i]);
            }
        }
        assert(less.push(last) =~= list);
        assert(r.to_multiset() =~= list.to_multiset().insert(x));
    }
}

/// The sorted list is the same paths, in their order.
pub proof fn law_sorted_paths(list: Seq<Seq<char>>)
    ensures
        is_sorted(sorted_paths(list)),
        sorted_paths(list).len() == list.len(),
        sorted_paths(list).to_multiset() == list.to_multiset(),
    decreases list.len(),
{
    if list.len() > 0 {
        broadcast use vstd::seq_lib::group_to_multiset_ensures;

        let less = list.drop_last();
        law_sorted_paths(less);
        lemma_with_path(sorted_paths(less), list.last());
        assert(less.push(list.last()) =~= list);
    }
}

} // verus!
