//! The search through a directory tree for project descriptors or scenes.
//!
//! The search asks for one look at the disk at a time, as a [`Request`], and goes
//! on with the answer. It goes depth first, through the entries of a directory in
//! the order in which they are listed; it follows no symbolic link, leaves out
//! directories that are not the project's own, and stops at a depth and at the
//! first failure.
use vstd::prelude::*;

use crate::external::{
    external_scene_fault, is_scene_extension, scene_extension, validate_external_scene_path,
};
use crate::path::{
    components, extension, extension_of, file_name, file_name_of, inside, is_inside,
    path_components,
};
use crate::text::{join, joined, lemma_texts_push, text_eq, texts};

verus! {

/// The most scenes that a search takes.
pub const MAX_SCENE_CANDIDATES: usize = 256;

/// What is searched for.
#[derive(Debug, Clone, Copy)]
pub enum SearchKind {
    /// Project descriptors, by their whole path.
    Projects,
    /// glTF and GLB scenes, by their path below the root.
    Scenes,
}

/// What an entry is, links not followed.
#[derive(Debug, Clone, Copy)]
pub enum EntryKind {
    SymbolicLink,
    Directory,
    RegularFile,
    Other,
}

/// How deep below the root a directory may be.
pub open spec fn depth_limit(kind: SearchKind) -> nat {
    match kind {
        SearchKind::Projects => 4,
        SearchKind::Scenes => 8,
    }
}

/// An entry that is left out because of its name.
pub open spec fn is_left_out(kind: SearchKind, path: Seq<char>) -> bool {
    match file_name_of(path) {
        Some(name) => match kind {
            SearchKind::Projects => name == ".git"@,
            SearchKind::Scenes => name == ".git"@ || name == ".kairo"@ || name == "Build"@ || name
                == "build"@ || name == "node_modules"@,
        },
        None => false,
    }
}

/// The path below `base`, if it lies there: the names behind those of `base`.
pub open spec fn relative_to(path: Seq<char>, base: Seq<char>) -> Option<Seq<char>> {
    if is_inside(path, base) {
        Some(joined(components(path).skip(components(base).len() as int), "/"@))
    } else {
        None
    }
}

/// What was found, with the regular file at `path` if it is searched for.
pub open spec fn with_file(
    kind: SearchKind,
    root: Seq<char>,
    path: Seq<char>,
    found: Seq<Seq<char>>,
) -> Result<Seq<Seq<char>>, Seq<char>> {
    match kind {
        SearchKind::Projects => if extension_of(path) == Some("kproject"@) {
            Ok(found.push(path))
        } else {
            Ok(found)
        },
        SearchKind::Scenes => if !is_scene_extension(extension_of(path)) {
            Ok(found)
        } else {
            match relative_to(path, root) {
                None => Err("External scene escaped the cloned repository"@),
                Some(relative) => match external_scene_fault(relative) {
                    Some(e) => Err(e),
                    None => if found.len() >= MAX_SCENE_CANDIDATES {
                        Err(
                            "External repository contains more than 256 glTF/GLB scenes; specify a narrower entry scene"@,
                        )
                    } else {
                        Ok(found.push(relative))
                    },
                },
            }
        },
    }
}

fn left_out(kind: SearchKind, path: &str) -> (r: bool)
    ensures
        r == is_left_out(kind, path@),
{
    match file_name(path) {
        Some(name) => {
            let n = name.as_str();
            match kind {
                SearchKind::Projects => text_eq(n, ".git"),
                SearchKind::Scenes => text_eq(n, ".git") || text_eq(n, ".kairo") || text_eq(
                    n,
                    "Build",
                ) || text_eq(n, "build") || text_eq(n, "node_modules"),
            }
        },
        None => false,
    }
}

fn relative_path(path: &str, base: &str) -> (r: Option<String>)
    ensures
        match r {
            Some(relative) => relative_to(path@, base@) == Some(relative@),
            None => relative_to(path@, base@) is None,
        },
{
    if !inside(path, base) {
        return None;
    }
    let all = path_components(path);
    let skipped = path_components(base).len();
    let mut rest: Vec<String> = Vec::new();
    let mut i: usize = skipped;
    assert(texts(all@).len() == all@.len());
    assert(texts(rest@) =~= texts(all@).subrange(skipped as int, i as int));
    while i < all.len()
        invariant
            skipped <= i <= all.len(),
            texts(rest@) == texts(all@).subrange(skipped as int, i as int),
            texts(all@).len() == all@.len(),
        decreases all.len() - i,
    {
        let name = all[i].clone();
        proof {
            lemma_texts_push(rest@, name);
            assert(texts(all@)[i as int] == all@[i as int]@);
            assert(texts(all@).subrange(skipped as int, i + 1) =~= texts(all@).subrange(
                skipped as int,
                i as int,
            ).push(name@));
        }
        rest.push(name);
        i += 1;
    }
    assert(texts(rest@) =~= components(path@).skip(components(base@).len() as int));
    Some(join(&rest, "/"))
}

// ---------------------------------------------------------------------------
// The state of a search
// ---------------------------------------------------------------------------
/// What the search wants to know next.
#[derive(Debug)]
pub enum Request {
    /// The entries of the directory at this path.
    List(String),
    /// What stands at this path, links not followed.
    Inspect(String),
    /// Nothing: the search is over.
    Finished,
    /// Nothing: the search has failed.
    Failed(String),
}

pub enum RequestView {
    List(Seq<char>),
    Inspect(Seq<char>),
    Finished,
    Failed(Seq<char>),
}

impl View for Request {
    type V = RequestView;

    open spec fn view(&self) -> RequestView {
        match *self {
            Request::List(path) => RequestView::List(path@),
            Request::Inspect(path) => RequestView::Inspect(path@),
            Request::Finished => RequestView::Finished,
            Request::Failed(e) => RequestView::Failed(e@),
        }
    }
}

/// The path of an entry, or why the entry could not be read.
pub type ListedEntry = Result<String, String>;

/// The entries of a directory that are still to be looked at.
#[derive(Debug)]
struct Frame {
    entries: Vec<ListedEntry>,
    next: usize,
}

pub open spec fn entry_view(e: ListedEntry) -> Result<Seq<char>, Seq<char>> {
    match e {
        Ok(path) => Ok(path@),
        Err(error) => Err(error@),
    }
}

pub open spec fn entry_views(v: Seq<ListedEntry>) -> Seq<Result<Seq<char>, Seq<char>>> {
    v.map_values(|e: ListedEntry| entry_view(e))
}

impl View for Frame {
    type V = Seq<Result<Seq<char>, Seq<char>>>;

    closed spec fn view(&self) -> Seq<Result<Seq<char>, Seq<char>>> {
        if self.next <= self.entries@.len() {
            entry_views(self.entries@).skip(self.next as int)
        } else {
            seq![]
        }
    }
}

/// A search under way.
#[derive(Debug)]
pub struct Search {
    kind: SearchKind,
    root: String,
    stack: Vec<Frame>,
    found: Vec<String>,
    request: Request,
}

/// A search under way. The stack holds, for each directory from the root to the
/// one that is being looked through, the entries still to come; its height is the
/// depth of a directory found next.
pub struct SearchView {
    pub kind: SearchKind,
    pub root: Seq<char>,
    pub stack: Seq<Seq<Result<Seq<char>, Seq<char>>>>,
    pub found: Seq<Seq<char>>,
    pub request: RequestView,
}

impl View for Search {
    type V = SearchView;

    closed spec fn view(&self) -> SearchView {
        SearchView {
            kind: self.kind,
            root: self.root@,
            stack: self.stack@.map_values(|f: Frame| f@),
            found: texts(self.found@),
            request: self.request@,
        }
    }
}

/// The search as it begins.
pub open spec fn search_started(kind: SearchKind, root: Seq<char>) -> SearchView {
    SearchView { kind, root, stack: seq![], found: seq![], request: RequestView::List(root) }
}

/// The search with its next request: the next entry that is not left out is
/// inspected; where none is left, the search is over.
pub open spec fn advanced(s: SearchView) -> SearchView
    decreases s.stack.len(), s.stack.last().len(),
{
    let top = s.stack.last();
    let above = s.stack.drop_last();
    if s.stack.len() == 0 {
        SearchView { request: RequestView::Finished, ..s }
    } else if top.len() == 0 {
        advanced(SearchView { stack: above, ..s })
    } else {
        let rest = SearchView { stack: above.push(top.drop_first()), ..s };
        match top[0] {
            Err(e) => SearchView { request: RequestView::Failed(e), ..rest },
            Ok(path) => if is_left_out(s.kind, path) {
                advanced(rest)
            } else {
                SearchView { request: RequestView::Inspect(path), ..rest }
            },
        }
    }
}

/// The search with the entries of the directory that it asked for.
pub open spec fn listed_view(
    s: SearchView,
    listing: Result<Seq<Result<Seq<char>, Seq<char>>>, Seq<char>>,
) -> SearchView {
    if s.request is List {
        match listing {
            Err(e) => SearchView { request: RequestView::Failed(e), ..s },
            Ok(entries) => advanced(SearchView { stack: s.stack.push(entries), ..s }),
        }
    } else {
        s
    }
}

/// The search with the kind of the entry that it asked for.
pub open spec fn inspected_view(
    s: SearchView,
    answer: Result<EntryKind, Seq<char>>,
) -> SearchView {
    match s.request {
        RequestView::Inspect(path) => match answer {
            Err(e) => SearchView { request: RequestView::Failed(e), ..s },
            Ok(EntryKind::Directory) => if s.stack.len() <= depth_limit(s.kind) {
                SearchView { request: RequestView::List(path), ..s }
            } else {
                advanced(s)
            },
            Ok(EntryKind::RegularFile) => match with_file(s.kind, s.root, path, s.found) {
                Err(e) => SearchView { request: RequestView::Failed(e), ..s },
                Ok(found) => advanced(SearchView { found, ..s }),
            },
            Ok(_) => advanced(s),
        },
        _ => s,
    }
}

pub open spec fn listing_view(listing: Result<Vec<ListedEntry>, String>) -> Result<
    Seq<Result<Seq<char>, Seq<char>>>,
    Seq<char>,
> {
    match listing {
        Ok(entries) => Ok(entry_views(entries@)),
        Err(e) => Err(e@),
    }
}

pub open spec fn answer_view(answer: Result<EntryKind, String>) -> Result<EntryKind, Seq<char>> {
    match answer {
        Ok(kind) => Ok(kind),
        Err(e) => Err(e@),
    }
}

impl Search {
    /// A search below `root`.
    pub fn new(kind: SearchKind, root: &str) -> (s: Search)
        ensures
            s@ == search_started(kind, root@),
    {
        let s = Search {
            kind,
            root: root.to_owned(),
            stack: Vec::new(),
            found: Vec::new(),
            request: Request::List(root.to_owned()),
        };
        assert(s@.stack =~= Seq::<Seq<Result<Seq<char>, Seq<char>>>>::empty());
        assert(s@.found =~= Seq::<Seq<char>>::empty());
        s
    }

    /// What the search wants to know next.
    pub fn request(&self) -> (r: &Request)
        ensures
            r@ == self@.request,
    {
        &self.request
    }

    /// Goes on with the entries of the directory that was asked for, or with why
    /// they could not be listed.
    pub fn listed(&mut self, listing: Result<Vec<ListedEntry>, String>)
        ensures
            final(self)@ == listed_view(old(self)@, listing_view(listing)),
    {
        match &self.request {
            Request::List(_) => {},
            _ => {
                return ;
            },
        }
        match listing {
            Err(e) => {
                self.request = Request::Failed(e);
            },
            Ok(entries) => {
                let ghost before = self.stack@;
                let frame = Frame { entries, next: 0 };
                assert(frame@ =~= entry_views(entries@));
                self.stack.push(frame);
                assert(self@.stack =~= before.map_values(|f: Frame| f@).push(frame@));
                self.advance();
            },
        }
    }

    /// Goes on with what the inspected entry is, or with why that is not known.
    pub fn inspected(&mut self, answer: Result<EntryKind, String>)
        ensures
            final(self)@ == inspected_view(old(self)@, answer_view(answer)),
    {
        let path = match &self.request {
            Request::Inspect(path) => path.clone(),
            _ => {
                return ;
            },
        };
        assert(self@.stack.len() == self.stack@.len());
        match answer {
            Err(e) => {
                self.request = Request::Failed(e);
            },
            Ok(EntryKind::Directory) => {
                let limit: usize = match self.kind {
                    SearchKind::Projects => 4,
                    SearchKind::Scenes => 8,
                };
                if self.stack.len() <= limit {
                    self.request = Request::List(path);
                } else {
                    self.advance();
                }
            },
            Ok(EntryKind::RegularFile) => {
                match self.take_file(path.as_str()) {
                    Err(e) => {
                        self.request = Request::Failed(e);
                    },
                    Ok(_) => {
                        self.advance();
                    },
                }
            },
            Ok(EntryKind::SymbolicLink) | Ok(EntryKind::Other) => {
                self.advance();
            },
        }
    }

    /// Notes the file at `path` if it is searched for.
    fn take_file(&mut self, path: &str) -> (r: Result<(), String>)
        ensures
            match r {
                Ok(_) => with_file(old(self)@.kind, old(self)@.root, path@, old(self)@.found)
                    == Ok::<_, Seq<char>>(final(self)@.found) && final(self)@ == (SearchView {
                    found: final(self)@.found,
                    ..old(self)@
                }),
                Err(e) => with_file(old(self)@.kind, old(self)@.root, path@, old(self)@.found)
                    == Err::<Seq<Seq<char>>, _>(e@) && final(self)@ == old(self)@,
            },
    {
        assert(self@.found.len() == self.found@.len());
        match self.kind {
            SearchKind::Projects => {
                let taken = match extension(path) {
                    Some(e) => text_eq(e.as_str(), "kproject"),
                    None => false,
                };
                if taken {
                    let path = path.to_owned();
                    proof {
                        lemma_texts_push(self.found@, path);
                    }
                    self.found.push(path);
                }
                Ok(())
            },
            SearchKind::Scenes => {
                if !scene_extension(&extension(path)) {
                    return Ok(());
                }
                let relative = match relative_path(path, self.root.as_str()) {
                    Some(relative) => relative,
                    None => {
                        return Err("External scene escaped the cloned repository".to_owned());
                    },
                };
                match validate_external_scene_path(relative.as_str()) {
                    Ok(_) => {},
                    Err(e) => {
                        return Err(e);
                    },
                }
                if self.found.len() >= MAX_SCENE_CANDIDATES {
                    return Err(
                        "External repository contains more than 256 glTF/GLB scenes; specify a narrower entry scene".to_owned(),
                    );
                }
                proof {
                    lemma_texts_push(self.found@, relative);
                }
                self.found.push(relative);
                Ok(())
            },
        }
    }

    /// Finds the next request.
    fn advance(&mut self)
        ensures
            final(self)@ == advanced(old(self)@),
    {
        loop
            invariant
                advanced(old(self)@) == advanced(self@),
            decreases self@.stack.len(), self@.stack.last().len(),
        {
            assert(self@.stack.len() == self.stack@.len());
            let height = self.stack.len();
            if height == 0 {
                self.request = Request::Finished;
                return ;
            }
            let ghost frames = self.stack@;
            let ghost before = self@;
            assert(before.stack.last() == frames.last()@);
            let frame = match self.stack.pop() {
                Some(frame) => frame,
                None => {
                    return ;
                },
            };
            assert(self@.stack =~= before.stack.drop_last());
            let ghost views = entry_views(frame.entries@);
            if frame.next >= frame.entries.len() {
                assert(frame@.len() == 0);
                continue ;
            }
            let ghost top = frame@;
            assert(top == views.skip(frame.next as int));
            assert(top[0] == entry_view(frame.entries@[frame.next as int]));
            let Frame { entries, next } = frame;
            let entry = match &entries[next] {
                Ok(path) => Ok(path.clone()),
                Err(e) => Err(e.clone()),
            };
            let rest = Frame { entries, next: next + 1 };
            assert(rest@ =~= top.drop_first());
            self.stack.push(rest);
            assert(self@.stack =~= before.stack.drop_last().push(top.drop_first()));
            match entry {
                Err(e) => {
                    self.request = Request::Failed(e);
                    return ;
                },
                Ok(path) => {
                    if !left_out(self.kind, path.as_str()) {
                        self.request = Request::Inspect(path);
                        return ;
                    }
                },
            }
        }
    }

    /// What the search came to: what was found, once it is over.
    pub fn outcome(self) -> (r: Result<Vec<String>, String>)
        ensures
            match r {
                Ok(found) => texts(found@) == self@.found && !(self@.request is Failed),
                Err(e) => self@.request == RequestView::Failed(e@),
            },
    {
        match self.request {
            Request::Failed(e) => Err(e),
            _ => Ok(self.found),
        }
    }
}

// ---------------------------------------------------------------------------
// What a search comes to
// ---------------------------------------------------------------------------
/// A disk as a search sees it: what each directory lists, and what stands at each
/// path.
pub struct Disk {
    pub lists: spec_fn(Seq<char>) -> Result<Seq<Result<Seq<char>, Seq<char>>>, Seq<char>>,
    pub kinds: spec_fn(Seq<char>) -> Result<EntryKind, Seq<char>>,
}

/// What was found, with what the directory at `path` holds, `depth` levels below
/// the root.
pub open spec fn searched_directory(
    disk: Disk,
    kind: SearchKind,
    root: Seq<char>,
    path: Seq<char>,
    depth: nat,
    found: Seq<Seq<char>>,
) -> Result<Seq<Seq<char>>, Seq<char>>
    decreases depth_limit(kind) + 1 - depth, 1int, 0int,
{
    if depth > depth_limit(kind) {
        Ok(found)
    } else {
        match (disk.lists)(path) {
            Err(e) => Err(e),
            Ok(entries) => searched_entries(disk, kind, root, entries, depth, found),
        }
    }
}

/// What was found, with what the entries of a directory hold, in their order.
pub open spec fn searched_entries(
    disk: Disk,
    kind: SearchKind,
    root: Seq<char>,
    entries: Seq<Result<Seq<char>, Seq<char>>>,
    depth: nat,
    found: Seq<Seq<char>>,
) -> Result<Seq<Seq<char>>, Seq<char>>
    decreases depth_limit(kind) + 1 - depth, 0int, entries.len(),
{
    if entries.len() == 0 {
        Ok(found)
    } else {
        match entries[0] {
            Err(e) => Err(e),
            Ok(path) => if is_left_out(kind, path) {
                searched_entries(disk, kind, root, entries.drop_first(), depth, found)
            } else {
                match searched_entry(disk, kind, root, path, depth, found) {
                    Err(e) => Err(e),
                    Ok(more) => searched_entries(
                        disk,
                        kind,
                        root,
                        entries.drop_first(),
                        depth,
                        more,
                    ),
                }
            },
        }
    }
}

/// What was found, with what stands at `path` in a directory `depth` levels below
/// the root. A symbolic link is not followed.
pub open spec fn searched_entry(
    disk: Disk,
    kind: SearchKind,
    root: Seq<char>,
    path: Seq<char>,
    depth: nat,
    found: Seq<Seq<char>>,
) -> Result<Seq<Seq<char>>, Seq<char>>
    decreases depth_limit(kind) + 1 - depth, 0int, 0int,
{
    match (disk.kinds)(path) {
        Err(e) => Err(e),
        Ok(EntryKind::Directory) => if depth >= depth_limit(kind) {
            Ok(found)
        } else {
            searched_directory(disk, kind, root, path, depth + 1, found)
        },
        Ok(EntryKind::RegularFile) => with_file(kind, root, path, found),
        Ok(_) => Ok(found),
    }
}

/// What was found, with what the directories on the stack still hold.
pub open spec fn searched_stack(
    disk: Disk,
    kind: SearchKind,
    root: Seq<char>,
    stack: Seq<Seq<Result<Seq<char>, Seq<char>>>>,
    found: Seq<Seq<char>>,
) -> Result<Seq<Seq<char>>, Seq<char>>
    decreases stack.len(),
{
    if stack.len() == 0 {
        Ok(found)
    } else {
        match searched_entries(disk, kind, root, stack.last(), (stack.len() - 1) as nat, found) {
            Err(e) => Err(e),
            Ok(more) => searched_stack(disk, kind, root, stack.drop_last(), more),
        }
    }
}

/// Goes on with the stack, unless there was a failure.
pub open spec fn followed_by_stack(
    disk: Disk,
    s: SearchView,
    result: Result<Seq<Seq<char>>, Seq<char>>,
) -> Result<Seq<Seq<char>>, Seq<char>> {
    match result {
        Err(e) => Err(e),
        Ok(found) => searched_stack(disk, s.kind, s.root, s.stack, found),
    }
}

/// What a search on this disk will have come to.
pub open spec fn search_result(disk: Disk, s: SearchView) -> Result<Seq<Seq<char>>, Seq<char>> {
    match s.request {
        RequestView::Finished => Ok(s.found),
        RequestView::Failed(e) => Err(e),
        RequestView::List(path) => followed_by_stack(
            disk,
            s,
            searched_directory(disk, s.kind, s.root, path, s.stack.len(), s.found),
        ),
        RequestView::Inspect(path) => followed_by_stack(
            disk,
            s,
            searched_entry(disk, s.kind, s.root, path, (s.stack.len() - 1) as nat, s.found),
        ),
    }
}

/// What was found is what was searched for.
pub open spec fn is_sound_find(kind: SearchKind, found: Seq<Seq<char>>) -> bool {
    match kind {
        SearchKind::Projects => forall|i: int|
            0 <= i < found.len() ==> extension_of(#[trigger] found[i]) == Some("kproject"@),
        SearchKind::Scenes => found.len() <= MAX_SCENE_CANDIDATES && forall|i: int|
            0 <= i < found.len() ==> external_scene_fault(#[trigger] found[i]) is None,
    }
}

/// What holds of every search under way.
pub open spec fn is_sound_search(s: SearchView) -> bool {
    &&& s.stack.len() <= depth_limit(s.kind) + 1
    &&& s.request is List ==> s.stack.len() <= depth_limit(s.kind)
    &&& s.request is Inspect ==> s.stack.len() > 0
    &&& is_sound_find(s.kind, s.found)
}

proof fn lemma_advanced(disk: Disk, s: SearchView)
    requires
        s.stack.len() <= depth_limit(s.kind) + 1,
        is_sound_find(s.kind, s.found),
    ensures
        search_result(disk, advanced(s)) == searched_stack(
            disk,
            s.kind,
            s.root,
            s.stack,
            s.found,
        ),
        is_sound_search(advanced(s)),
        advanced(s).kind == s.kind && advanced(s).root == s.root,
    decreases s.stack.len(), s.stack.last().len(),
{
    let top = s.stack.last();
    let above = s.stack.drop_last();
    let depth = (s.stack.len() - 1) as nat;
    if s.stack.len() == 0 {
    } else if top.len() == 0 {
        lemma_advanced(disk, SearchView { stack: above, ..s });
    } else {
        let rest = SearchView { stack: above.push(top.drop_first()), ..s };
        assert(rest.stack.drop_last() =~= above);
        if let Ok(path) = top[0] {
            if is_left_out(s.kind, path) {
                lemma_advanced(disk, rest);
            } else {
                assert(advanced(s) == (SearchView { request: RequestView::Inspect(path), ..rest }));
            }
        }
    }
}

/// A search begins with nothing found, and will come to what its root holds.
pub proof fn law_search_covers_its_root(disk: Disk, kind: SearchKind, root: Seq<char>)
    ensures
        is_sound_search(search_started(kind, root)),
        search_result(disk, search_started(kind, root)) == searched_directory(
            disk,
            kind,
            root,
            root,
            0,
            seq![],
        ),
{
}

/// A true answer does not change what the search will come to, and keeps it
/// sound: so a search that is over has found what its root holds, each a thing
/// that was searched for.
pub proof fn law_true_answers_keep_the_result(disk: Disk, s: SearchView)
    requires
        is_sound_search(s),
    ensures
        match s.request {
            RequestView::List(path) => {
                let next = listed_view(s, (disk.lists)(path));
                search_result(disk, next) == search_result(disk, s) && is_sound_search(next)
            },
            RequestView::Inspect(path) => {
                let next = inspected_view(s, (disk.kinds)(path));
                search_result(disk, next) == search_result(disk, s) && is_sound_search(next)
            },
            RequestView::Finished => search_result(disk, s) == Ok::<_, Seq<char>>(s.found),
            RequestView::Failed(e) => search_result(disk, s) == Err::<Seq<Seq<char>>, _>(e),
        },
{
    match s.request {
        RequestView::List(path) => {
            if let Ok(entries) = (disk.lists)(path) {
                let opened = SearchView { stack: s.stack.push(entries), ..s };
                lemma_advanced(disk, opened);
                assert(opened.stack.drop_last() =~= s.stack);
            }
        },
        RequestView::Inspect(path) => {
            match (disk.kinds)(path) {
                Err(_) => {},
                Ok(EntryKind::RegularFile) => {
                    if let Ok(found) = with_file(s.kind, s.root, path, s.found) {
                        assert(is_sound_find(s.kind, found)) by {
                            assert forall|i: int| 0 <= i < s.found.len() implies found[i]
                                == s.found[i] by {}
                        }
                        lemma_advanced(disk, SearchView { found, ..s });
                    }
                },
                _ => {
                    lemma_advanced(disk, s);
                },
            }
        },
        _ => {},
    }
}

/// A symbolic link is never followed and never found, wherever it leads.
pub proof fn law_links_are_not_followed(
    disk: Disk,
    kind: SearchKind,
    root: Seq<char>,
    path: Seq<char>,
    depth: nat,
    found: Seq<Seq<char>>,
)
    requires
        (disk.kinds)(path) == Ok::<_, Seq<char>>(EntryKind::SymbolicLink),
    ensures
        searched_entry(disk, kind, root, path, depth, found) == Ok::<_, Seq<char>>(found),
{
}

} // verus!
