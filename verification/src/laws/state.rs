//! What the Hub remembers, sorted paths, and what is shown of a program's output.
use vstd::prelude::*;

use crate::listing::{sorted_paths, with_path};
use crate::path::{components, law_path_order_is_total, path_before};
use crate::process::{diagnostics_of, lossy_text};
use crate::state::{empty_state, favored, registered, remembered, StateView};
use crate::text::trimmed;

verus! {

/// At first nothing is remembered.
pub proof fn law_nothing_is_remembered_at_first()
    ensures
        empty_state().recent_projects.len() == 0,
        empty_state().favorites.len() == 0,
        empty_state().engine_roots.len() == 0,
        empty_state().selected_engine is None,
{
}

/// A list without the paths that have the components of `path`.
pub open spec fn others(list: Seq<Seq<char>>, path: Seq<char>) -> Seq<Seq<char>> {
    list.filter(|other: Seq<char>| components(other) != components(path))
}

/// An opened project comes first; behind it stand the others in their order, but
/// no more than 24 in all. Nothing else is changed.
pub proof fn law_latest_projects(s: StateView, project: Seq<char>)
    ensures
        ({
            let next = remembered(s, project);
            let rest = others(s.recent_projects, project);
            &&& next == (StateView { recent_projects: next.recent_projects, ..s })
            &&& next.recent_projects.len() == if rest.len() < 24 {
                rest.len() + 1
            } else {
                24
            }
            &&& next.recent_projects[0] == project
            &&& forall|i: int|
                1 <= i < next.recent_projects.len() ==> #[trigger] next.recent_projects[i] == rest[i
                    - 1]
        }),
{
    let rest = others(s.recent_projects, project);
    assert(crate::state::without_path(s.recent_projects, project) =~= rest) by {
        let f = |other: Seq<char>| components(other) != components(project);
        let g = |other: Seq<char>| !crate::path::is_same_path(other, project);
        assert(f =~= g);
    }
}

/// Making a project a favorite or none changes nothing but the favorites; a
/// project that is none is taken out, and the others stay in their order; one that
/// is one already stays where it is.
pub proof fn law_favorites(s: StateView, project: Seq<char>, favorite: bool)
    ensures
        ({
            let next = favored(s, project, favorite);
            let listed = exists|i: int|
                0 <= i < s.favorites.len() && components(#[trigger] s.favorites[i]) == components(
                    project,
                );
            &&& next == (StateView { favorites: next.favorites, ..s })
            &&& !favorite ==> next.favorites == others(s.favorites, project)
            &&& favorite && listed ==> next.favorites == s.favorites
            &&& favorite && !listed ==> next.favorites.len() == s.favorites.len() + 1 && exists|
                at: int,
            |
                0 <= at <= s.favorites.len() && next.favorites == #[trigger] s.favorites.insert(
                    at,
                    project,
                )
        }),
{
    let f = |other: Seq<char>| components(other) != components(project);
    let g = |other: Seq<char>| !crate::path::is_same_path(other, project);
    assert(f =~= g);
    lemma_put_in(s.favorites, project);
    if crate::state::holds_path(s.favorites, project) {
        let i = choose|i: int|
            0 <= i < s.favorites.len() && crate::path::is_same_path(
                #[trigger] s.favorites[i],
                project,
            );
        assert(components(s.favorites[i]) == components(project));
    } else {
        assert forall|i: int| 0 <= i < s.favorites.len() implies components(
            #[trigger] s.favorites[i],
        ) != components(project) by {
            assert(!crate::path::is_same_path(s.favorites[i], project));
        }
    }
}

proof fn lemma_put_in(list: Seq<Seq<char>>, x: Seq<char>)
    ensures
        exists|at: int|
            0 <= at <= list.len() && with_path(list, x) == #[trigger] list.insert(at, x),
    decreases list.len(),
{
    if list.len() == 0 || !path_before(x, list.last()) {
        assert(list.insert(list.len() as int, x) =~= list.push(x));
    } else {
        let less = list.drop_last();
        lemma_put_in(less, x);
        let at = choose|at: int|
            0 <= at <= less.len() && with_path(less, x) == #[trigger] less.insert(at, x);
        assert(less.insert(at, x).push(list.last()) =~= list.insert(at, x));
    }
}

/// A registered engine comes first and is selected; behind it stand the others in
/// their order, all of them. Projects and favorites stay as they are.
pub proof fn law_engines(s: StateView, root: Seq<char>)
    ensures
        ({
            let next = registered(s, root);
            &&& next.recent_projects == s.recent_projects && next.favorites == s.favorites
            &&& next.engine_roots == seq![root] + others(s.engine_roots, root)
            &&& next.selected_engine == Some(root)
        }),
{
    let f = |other: Seq<char>| components(other) != components(root);
    let g = |other: Seq<char>| !crate::path::is_same_path(other, root);
    assert(f =~= g);
}

/// Sorting keeps paths with the same components in the order in which they stood.
pub proof fn law_sorting_is_stable(list: Seq<Seq<char>>, like: Seq<char>)
    ensures
        sorted_paths(list).filter(|x: Seq<char>| components(x) == components(like)) == list.filter(
            |x: Seq<char>| components(x) == components(like),
        ),
    decreases list.len(),
{
    if list.len() > 0 {
        reveal(Seq::filter);
        law_sorting_is_stable(list.drop_last(), like);
        lemma_stable_put_in(sorted_paths(list.drop_last()), list.last(), like);
        let before = sorted_paths(list.drop_last());
        assert(before.push(list.last()).drop_last() =~= before);
    }
}

proof fn lemma_stable_put_in(list: Seq<Seq<char>>, x: Seq<char>, like: Seq<char>)
    ensures
        with_path(list, x).filter(|y: Seq<char>| components(y) == components(like)) == list.push(
            x,
        ).filter(|y: Seq<char>| components(y) == components(like)),
    decreases list.len(),
{
    if list.len() > 0 && path_before(x, list.last()) {
        let f = |y: Seq<char>| components(y) == components(like);
        let less = list.drop_last();
        let last = list.last();
        lemma_stable_put_in(less, x, like);
        law_path_order_is_total(x, last, x);
        reveal_with_fuel(Seq::filter, 3);
        let put = with_path(less, x);
        assert(put.push(last).drop_last() =~= put);
        assert(list.push(x).drop_last() =~= list);
        assert(less.push(x).drop_last() =~= less);
        assert(!(f(x) && f(last)));
        assert(with_path(list, x).filter(f) =~= list.push(x).filter(f));
    }
}

/// Of a program's output the first 8192 bytes are shown, as text, without the
/// white space around it.
pub proof fn law_shown_output(output: Seq<u8>)
    ensures
        output.len() <= 8192 ==> diagnostics_of(output) == trimmed(lossy_text(output)),
        output.len() >= 8192 ==> diagnostics_of(output) == trimmed(
            lossy_text(output.subrange(0, 8192)),
        ),
{
    if output.len() >= 8192 {
        assert(output.subrange(0, 8192) =~= output.take(8192));
        if output.len() == 8192 {
            assert(output.take(8192) =~= output);
        }
    }
}

} // verus!
