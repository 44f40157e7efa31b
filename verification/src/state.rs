//! What the Hub remembers: recent projects, favorites and engines.
//!
//! Two texts that are the same path stand for the same project or engine.
use vstd::prelude::*;

use crate::descriptor::opt_text;
use crate::health::ProjectHealth;
use crate::listing::{insert_path, is_sorted, lemma_with_path, with_path};
use crate::path::{is_same_path, path_before, same_path};
use crate::text::{copy_list, join, joined, lemma_texts_push, texts};

verus! {

/// How many recent projects are kept.
pub const MAX_RECENT_PROJECTS: usize = 24;

/// What the Hub remembers.
#[derive(Debug)]
pub struct HubState {
    /// The projects that were opened, the latest first.
    pub recent_projects: Vec<String>,
    /// The favorites, in the order of paths.
    pub favorites: Vec<String>,
    /// The engines, the one that was registered last first.
    pub engine_roots: Vec<String>,
    pub selected_engine: Option<String>,
}

pub struct StateView {
    pub recent_projects: Seq<Seq<char>>,
    pub favorites: Seq<Seq<char>>,
    pub engine_roots: Seq<Seq<char>>,
    pub selected_engine: Option<Seq<char>>,
}

impl View for HubState {
    type V = StateView;

    open spec fn view(&self) -> StateView {
        StateView {
            recent_projects: texts(self.recent_projects@),
            favorites: texts(self.favorites@),
            engine_roots: texts(self.engine_roots@),
            selected_engine: opt_text(self.selected_engine),
        }
    }
}

impl Clone for HubState {
    fn clone(&self) -> (r: HubState)
        ensures
            r@ == self@,
    {
        HubState {
            recent_projects: copy_list(&self.recent_projects),
            favorites: copy_list(&self.favorites),
            engine_roots: copy_list(&self.engine_roots),
            selected_engine: match &self.selected_engine {
                Some(root) => Some(root.clone()),
                None => None,
            },
        }
    }
}

/// Nothing is remembered.
pub open spec fn empty_state() -> StateView {
    StateView {
        recent_projects: seq![],
        favorites: seq![],
        engine_roots: seq![],
        selected_engine: None,
    }
}

impl Default for HubState {
    fn default() -> (r: HubState)
        ensures
            r@ == empty_state(),
    {
        let r = HubState {
            recent_projects: Vec::new(),
            favorites: Vec::new(),
            engine_roots: Vec::new(),
            selected_engine: None,
        };
        assert(r@.recent_projects =~= Seq::<Seq<char>>::empty());
        assert(r@.favorites =~= Seq::<Seq<char>>::empty());
        assert(r@.engine_roots =~= Seq::<Seq<char>>::empty());
        r
    }
}

// ---------------------------------------------------------------------------
// Changes
// ---------------------------------------------------------------------------
/// A list without the paths that are the same as `path`.
pub open spec fn without_path(list: Seq<Seq<char>>, path: Seq<char>) -> Seq<Seq<char>> {
    list.filter(|other: Seq<char>| !is_same_path(other, path))
}

/// A list with `path` first, and nowhere else.
pub open spec fn moved_to_front(list: Seq<Seq<char>>, path: Seq<char>) -> Seq<Seq<char>> {
    seq![path] + without_path(list, path)
}

/// The first of a list, up to a number.
pub open spec fn at_most(list: Seq<Seq<char>>, count: nat) -> Seq<Seq<char>> {
    if list.len() > count {
        list.take(count as int)
    } else {
        list
    }
}

pub open spec fn holds_path(list: Seq<Seq<char>>, path: Seq<char>) -> bool {
    exists|i: int| 0 <= i < list.len() && is_same_path(#[trigger] list[i], path)
}

/// The state with `project` as the latest.
pub open spec fn remembered(s: StateView, project: Seq<char>) -> StateView {
    StateView {
        recent_projects: at_most(
            moved_to_front(s.recent_projects, project),
            MAX_RECENT_PROJECTS as nat,
        ),
        ..s
    }
}

/// The state with `project` a favorite, or not.
pub open spec fn favored(s: StateView, project: Seq<char>, favorite: bool) -> StateView {
    StateView {
        favorites: if !favorite {
            without_path(s.favorites, project)
        } else if holds_path(s.favorites, project) {
            s.favorites
        } else {
            with_path(s.favorites, project)
        },
        ..s
    }
}

/// The state with the engine at `root` registered and selected.
pub open spec fn registered(s: StateView, root: Seq<char>) -> StateView {
    StateView {
        engine_roots: moved_to_front(s.engine_roots, root),
        selected_engine: Some(root),
        ..s
    }
}

fn remove_path(list: &Vec<String>, path: &str) -> (r: Vec<String>)
    ensures
        texts(r@) == without_path(texts(list@), path@),
        r@.len() <= list@.len(),
{
    let ghost all = texts(list@);
    let ghost keep = |other: Seq<char>| !is_same_path(other, path@);
    let mut r: Vec<String> = Vec::new();
    let mut i: usize = 0;
    reveal(Seq::filter);
    assert(texts(r@) =~= all.take(0).filter(keep));
    while i < list.len()
        invariant
            i <= list.len(),
            r@.len() <= i,
            all == texts(list@),
            keep == (|other: Seq<char>| !is_same_path(other, path@)),
            texts(r@) == all.take(i as int).filter(keep),
        decreases list.len() - i,
    {
        proof {
            reveal(Seq::filter);
            assert(all.take(i + 1).drop_last() =~= all.take(i as int));
            assert(all.take(i + 1).last() == list@[i as int]@);
        }
        if !same_path(list[i].as_str(), path) {
            let other = list[i].clone();
            proof {
                lemma_texts_push(r@, other);
            }
            r.push(other);
        }
        i += 1;
    }
    assert(all.take(all.len() as int) =~= all);
    r
}

fn move_to_front(list: &Vec<String>, path: &str) -> (r: Vec<String>)
    ensures
        texts(r@) == moved_to_front(texts(list@), path@),
{
    let mut rest = remove_path(list, path);
    let ghost others = rest@;
    let mut r: Vec<String> = Vec::new();
    r.push(path.to_owned());
    r.append(&mut rest);
    assert(texts(r@) =~= seq![path@] + texts(others));
    r
}

fn path_held(list: &Vec<String>, path: &str) -> (r: bool)
    ensures
        r == holds_path(texts(list@), path@),
{
    let mut i: usize = 0;
    while i < list.len()
        invariant
            i <= list.len(),
            forall|j: int| 0 <= j < i ==> !is_same_path(#[trigger] list@[j]@, path@),
        decreases list.len() - i,
    {
        if same_path(list[i].as_str(), path) {
            assert(is_same_path(texts(list@)[i as int], path@));
            return true;
        }
        i += 1;
    }
    assert forall|j: int| 0 <= j < texts(list@).len() implies !is_same_path(
        #[trigger] texts(list@)[j],
        path@,
    ) by {
        assert(texts(list@)[j] == list@[j]@);
    }
    false
}

impl HubState {
    /// Notes that a project was opened.
    pub fn remember(&mut self, project: String)
        ensures
            final(self)@ == remembered(old(self)@, project@),
    {
        let mut list = move_to_front(&self.recent_projects, project.as_str());
        let ghost all = list@;
        assert(texts(all).len() == all.len());
        list.truncate(MAX_RECENT_PROJECTS);
        assert(texts(list@) =~= at_most(texts(all), MAX_RECENT_PROJECTS as nat));
        self.recent_projects = list;
    }

    /// Makes a project a favorite, or no favorite.
    pub fn set_favorite(&mut self, project: String, favorite: bool)
        ensures
            final(self)@ == favored(old(self)@, project@, favorite),
    {
        if !favorite {
            self.favorites = remove_path(&self.favorites, project.as_str());
        } else if !path_held(&self.favorites, project.as_str()) {
            insert_path(&mut self.favorites, project);
        }
    }

    /// Registers an engine, and selects it.
    pub fn register_engine(&mut self, root: String)
        ensures
            final(self)@ == registered(old(self)@, root@),
    {
        self.engine_roots = move_to_front(&self.engine_roots, root.as_str());
        self.selected_engine = Some(root);
    }

    /// Notes that a project was opened, if its descriptor could be read.
    pub fn remember_project(&mut self, health: &ProjectHealth) -> (r: Result<(), String>)
        ensures
            match r {
                Ok(_) => health@.descriptor is Some && final(self)@ == remembered(
                    old(self)@,
                    health@.descriptor_path,
                ),
                Err(e) => health@.descriptor is None && final(self)@ == old(self)@ && e@ == joined(
                    health@.errors,
                    "; "@,
                ),
            },
    {
        if health.descriptor.is_none() {
            return Err(join(&health.errors, "; "));
        }
        self.remember(health.descriptor_path.clone());
        Ok(())
    }
}

// ---------------------------------------------------------------------------
// Laws
// ---------------------------------------------------------------------------
/// No two of the paths are the same.
pub open spec fn is_distinct(list: Seq<Seq<char>>) -> bool {
    forall|i: int, j: int|
        0 <= i < j < list.len() ==> !is_same_path(#[trigger] list[i], #[trigger] list[j])
}

/// What holds of every state that the Hub comes to: nothing is listed twice,
/// recent projects are few, favorites are sorted, and the selected engine is the
/// one that was registered last.
pub open spec fn is_sound_state(s: StateView) -> bool {
    &&& is_distinct(s.recent_projects)
    &&& s.recent_projects.len() <= MAX_RECENT_PROJECTS
    &&& is_distinct(s.favorites)
    &&& is_sorted(s.favorites)
    &&& is_distinct(s.engine_roots)
    &&& match s.selected_engine {
        Some(root) => s.engine_roots.len() > 0 && s.engine_roots[0] == root,
        None => s.engine_roots.len() == 0,
    }
}

proof fn lemma_without_path(list: Seq<Seq<char>>, path: Seq<char>)
    ensures
        without_path(list, path).len() <= list.len(),
        forall|i: int|
            0 <= i < without_path(list, path).len() ==> !is_same_path(
                #[trigger] without_path(list, path)[i],
                path,
            ) && list.contains(without_path(list, path)[i]),
        is_distinct(list) ==> is_distinct(without_path(list, path)),
        is_sorted(list) ==> is_sorted(without_path(list, path)),
        forall|other: Seq<char>|
            holds_path(list, other) && !is_same_path(other, path) ==> #[trigger] holds_path(
                without_path(list, path),
                other,
            ),
    decreases list.len(),
{
    let keep = |other: Seq<char>| !is_same_path(other, path);
    let r = without_path(list, path);
    reveal(Seq::filter);
    if list.len() > 0 {
        let less = list.drop_last();
        let last = list.last();
        lemma_without_path(less, path);
        let t = without_path(less, path);
        assert(r == if keep(last) {
            t.push(last)
        } else {
            t
        });
        assert forall|i: int| 0 <= i < r.len() implies !is_same_path(#[trigger] r[i], path)
            && list.contains(r[i]) by {
            if i < t.len() {
                assert(r[i] == t[i]);
                let k = choose|k: int| 0 <= k < less.len() && less[k] == t[i];
                assert(list[k] == r[i]);
            } else {
                assert(list[list.len() - 1] == r[i]);
            }
        }
        if is_distinct(list) {
            assert(is_distinct(less)) by {
                assert forall|i: int, j: int| 0 <= i < j < less.len() implies !is_same_path(
                    #[trigger] less[i],
                    #[trigger] less[j],
                ) by {
                    assert(less[i] == list[i] && less[j] == list[j]);
                }
            }
            assert forall|i: int, j: int| 0 <= i < j < r.len() implies !is_same_path(
                #[trigger] r[i],
                #[trigger] r[j],
            ) by {
                assert(r[i] == t[i]);
                if j == t.len() {
                    let k = choose|k: int| 0 <= k < less.len() && less[k] == t[i];
                    assert(list[k] == r[i]);
                    assert(list[list.len() - 1] == r[j]);
                } else {
                    assert(r[j] == t[j]);
                }
            }
        }
        if is_sorted(list) {
            assert(is_sorted(less)) by {
                assert forall|i: int, j: int| 0 <= i < j < less.len() implies !path_before(
                    #[trigger] less[j],
                    #[trigger] less[i],
                ) by {
                    assert(less[i] == list[i] && less[j] == list[j]);
                }
            }
            assert forall|i: int, j: int| 0 <= i < j < r.len() implies !path_before(
                #[trigger] r[j],
                #[trigger] r[i],
            ) by {
                assert(r[i] == t[i]);
                if j == t.len() {
                    let k = choose|k: int| 0 <= k < less.len() && less[k] == t[i];
                    assert(list[k] == r[i]);
                    assert(list[list.len() - 1] == r[j]);
                } else {
                    assert(r[j] == t[j]);
                }
            }
        }
        assert forall|other: Seq<char>|
            holds_path(list, other) && !is_same_path(other, path) implies #[trigger] holds_path(
            r,
            other,
        ) by {
            let k = choose|k: int| 0 <= k < list.len() && is_same_path(#[trigger] list[k], other);
            if k < less.len() {
                assert(is_same_path(less[k], other));
                assert(holds_path(less, other));
                assert(holds_path(t, other));
                let m = choose|m: int| 0 <= m < t.len() && is_same_path(#[trigger] t[m], other);
                assert(is_same_path(r[m], other));
            } else {
                assert(keep(last));
                assert(is_same_path(r[t.len() as int], other));
            }
        }
    }
}

proof fn lemma_moved_to_front(list: Seq<Seq<char>>, path: Seq<char>)
    requires
        is_distinct(list),
    ensures
        is_distinct(moved_to_front(list, path)),
        moved_to_front(list, path)[0] == path,
{
    lemma_without_path(list, path);
    let rest = without_path(list, path);
    let r = moved_to_front(list, path);
    assert forall|i: int, j: int| 0 <= i < j < r.len() implies !is_same_path(
        #[trigger] r[i],
        #[trigger] r[j],
    ) by {
        assert(r[j] == rest[j - 1]);
        if i > 0 {
            assert(r[i] == rest[i - 1]);
        }
    }
}

/// The empty state is sound.
pub proof fn law_empty_state_is_sound()
    ensures
        is_sound_state(empty_state()),
{
}

/// An opened project is the latest, and the state stays sound: nothing is listed
/// twice and at most 24 projects are kept.
pub proof fn law_remembered_project_is_latest(s: StateView, project: Seq<char>)
    requires
        is_sound_state(s),
    ensures
        is_sound_state(remembered(s, project)),
        remembered(s, project).recent_projects[0] == project,
{
    lemma_moved_to_front(s.recent_projects, project);
    let all = moved_to_front(s.recent_projects, project);
    let r = remembered(s, project).recent_projects;
    assert forall|i: int, j: int| 0 <= i < j < r.len() implies !is_same_path(
        #[trigger] r[i],
        #[trigger] r[j],
    ) by {
        assert(r[i] == all[i] && r[j] == all[j]);
    }
}

/// A project that is made a favorite is one, and one that is made none is none;
/// other favorites stay as they are, and the state stays sound.
pub proof fn law_favorite_is_set(s: StateView, project: Seq<char>, favorite: bool)
    requires
        is_sound_state(s),
    ensures
        is_sound_state(favored(s, project, favorite)),
        holds_path(favored(s, project, favorite).favorites, project) == favorite,
        forall|other: Seq<char>|
            !is_same_path(other, project) ==> (#[trigger] holds_path(
                favored(s, project, favorite).favorites,
                other,
            ) <==> holds_path(s.favorites, other)),
{
    let before = s.favorites;
    let after = favored(s, project, favorite).favorites;
    if !favorite {
        lemma_without_path(before, project);
        assert forall|other: Seq<char>| !is_same_path(other, project) implies (
        #[trigger] holds_path(after, other) <==> holds_path(before, other)) by {
            if holds_path(after, other) {
                let k = choose|k: int|
                    0 <= k < after.len() && is_same_path(#[trigger] after[k], other);
                let m = choose|m: int| 0 <= m < before.len() && before[m] == after[k];
                assert(is_same_path(before[m], other));
            }
        }
    } else if !holds_path(before, project) {
        lemma_with_path(before, project);
        lemma_inserted(before, project);
    }
}

proof fn lemma_inserted(list: Seq<Seq<char>>, x: Seq<char>)
    requires
        is_distinct(list),
        !holds_path(list, x),
    ensures
        is_distinct(with_path(list, x)),
        holds_path(with_path(list, x), x),
        forall|other: Seq<char>|
            !is_same_path(other, x) ==> (#[trigger] holds_path(with_path(list, x), other)
                <==> holds_path(list, other)),
    decreases list.len(),
{
    let r = with_path(list, x);
    if list.len() == 0 || !path_before(x, list.last()) {
        assert forall|i: int, j: int| 0 <= i < j < r.len() implies !is_same_path(
            #[trigger] r[i],
            #[trigger] r[j],
        ) by {
            assert(r[i] == list[i]);
            if j < list.len() {
                assert(r[j] == list[j]);
            }
        }
        assert(is_same_path(r[list.len() as int], x));
        assert forall|other: Seq<char>| !is_same_path(other, x) implies (#[trigger] holds_path(
            r,
            other,
        ) <==> holds_path(list, other)) by {
            if holds_path(r, other) {
                let k = choose|k: int| 0 <= k < r.len() && is_same_path(#[trigger] r[k], other);
                assert(is_same_path(list[k], other));
            }
            if holds_path(list, other) {
                let k = choose|k: int|
                    0 <= k < list.len() && is_same_path(#[trigger] list[k], other);
                assert(is_same_path(r[k], other));
            }
        }
    } else {
        let less = list.drop_last();
        let last = list.last();
        let t = with_path(less, x);
        assert forall|i: int, j: int| 0 <= i < j < less.len() implies !is_same_path(
            #[trigger] less[i],
            #[trigger] less[j],
        ) by {
            assert(less[i] == list[i] && less[j] == list[j]);
        }
        assert(!holds_path(less, x)) by {
            if holds_path(less, x) {
                let k = choose|k: int| 0 <= k < less.len() && is_same_path(#[trigger] less[k], x);
                assert(is_same_path(list[k], x));
            }
        }
        lemma_inserted(less, x);
        assert(is_same_path(list[list.len() - 1], last));
        assert(!is_same_path(last, x));
        assert(!holds_path(less, last)) by {
            if holds_path(less, last) {
                let k = choose|k: int|
                    0 <= k < less.len() && is_same_path(#[trigger] less[k], last);
                assert(is_same_path(list[k], list[list.len() - 1]));
            }
        }
        assert(!holds_path(t, last));
        assert forall|i: int, j: int| 0 <= i < j < r.len() implies !is_same_path(
            #[trigger] r[i],
            #[trigger] r[j],
        ) by {
            assert(r[i] == t[i]);
            if j < t.len() {
                assert(r[j] == t[j]);
            } else {
                assert(!is_same_path(t[i], last));
            }
        }
        let m = choose|m: int| 0 <= m < t.len() && is_same_path(#[trigger] t[m], x);
        assert(is_same_path(r[m], x));
        assert forall|other: Seq<char>| !is_same_path(other, x) implies (#[trigger] holds_path(
            r,
            other,
        ) <==> holds_path(list, other)) by {
            if holds_path(r, other) {
                let k = choose|k: int| 0 <= k < r.len() && is_same_path(#[trigger] r[k], other);
                if k < t.len() {
                    assert(is_same_path(t[k], other));
                    assert(holds_path(t, other));
                    assert(holds_path(less, other));
                    let n = choose|n: int|
                        0 <= n < less.len() && is_same_path(#[trigger] less[n], other);
                    assert(is_same_path(list[n], other));
                } else {
                    assert(is_same_path(list[list.len() - 1], other));
                }
            }
            if holds_path(list, other) {
                let k = choose|k: int|
                    0 <= k < list.len() && is_same_path(#[trigger] list[k], other);
                if k < less.len() {
                    assert(is_same_path(less[k], other));
                    assert(holds_path(less, other));
                    assert(holds_path(t, other));
                    let n = choose|n: int| 0 <= n < t.len() && is_same_path(#[trigger] t[n], other);
                    assert(is_same_path(r[n], other));
                } else {
                    assert(is_same_path(r[r.len() - 1], other));
                }
            }
        }
    }
}

/// A registered engine is listed first and selected, and the state stays sound:
/// no engine is listed twice.
pub proof fn law_registered_engine_is_selected(s: StateView, root: Seq<char>)
    requires
        is_sound_state(s),
    ensures
        is_sound_state(registered(s, root)),
        registered(s, root).selected_engine == Some(root),
        registered(s, root).engine_roots[0] == root,
{
    lemma_moved_to_front(s.engine_roots, root);
}

} // verus!
