//! Engine installations: which version a checkout of the engine has, and where
//! its built tools are.
//!
//! Which files exist is handed in as a list of paths.
use vstd::prelude::*;
use vstd::std_specs::cmp::PartialEqSpecImpl;
use vstd::slice::slice_subrange;

use crate::descriptor::opt_text;
use crate::listing::{find_existing, first_existing, lemma_first_existing};
use crate::path::{is_same_path, join_of, join_path, same_path};
use crate::text::{
    chars_of, contains, encoded_length, find, first_occurs_at, holds_text, is_white_space,
    lemma_byte_length_at_least, lemma_texts_push, lines, lines_of, occurs, occurs_at, skip_chars,
    string_of, take_chars, text_eq, texts, trim_start, white_space,
};

verus! {

/// An engine that projects can be opened and run with.
#[derive(Debug)]
pub struct EngineInstallation {
    pub root: String,
    pub version: String,
    pub editor: String,
    pub editor_available: bool,
    pub project_compiler: String,
    pub project_compiler_available: bool,
    pub player: String,
    pub player_available: bool,
}

pub struct InstallationView {
    pub root: Seq<char>,
    pub version: Seq<char>,
    pub editor: Seq<char>,
    pub editor_available: bool,
    pub project_compiler: Seq<char>,
    pub project_compiler_available: bool,
    pub player: Seq<char>,
    pub player_available: bool,
}

impl View for EngineInstallation {
    type V = InstallationView;

    open spec fn view(&self) -> InstallationView {
        InstallationView {
            root: self.root@,
            version: self.version@,
            editor: self.editor@,
            editor_available: self.editor_available,
            project_compiler: self.project_compiler@,
            project_compiler_available: self.project_compiler_available,
            player: self.player@,
            player_available: self.player_available,
        }
    }
}

impl Clone for EngineInstallation {
    fn clone(&self) -> (r: EngineInstallation)
        ensures
            r@ == self@,
    {
        EngineInstallation {
            root: self.root.clone(),
            version: self.version.clone(),
            editor: self.editor.clone(),
            editor_available: self.editor_available,
            project_compiler: self.project_compiler.clone(),
            project_compiler_available: self.project_compiler_available,
            player: self.player.clone(),
            player_available: self.player_available,
        }
    }
}

/// The same installation: paths are the same paths.
pub open spec fn is_same_installation(a: InstallationView, b: InstallationView) -> bool {
    &&& is_same_path(a.root, b.root)
    &&& a.version == b.version
    &&& is_same_path(a.editor, b.editor)
    &&& a.editor_available == b.editor_available
    &&& is_same_path(a.project_compiler, b.project_compiler)
    &&& a.project_compiler_available == b.project_compiler_available
    &&& is_same_path(a.player, b.player)
    &&& a.player_available == b.player_available
}

impl PartialEqSpecImpl for EngineInstallation {
    open spec fn obeys_eq_spec() -> bool {
        true
    }

    open spec fn eq_spec(&self, other: &EngineInstallation) -> bool {
        is_same_installation(self@, other@)
    }
}

impl PartialEq for EngineInstallation {
    fn eq(&self, other: &EngineInstallation) -> (r: bool) {
        same_path(self.root.as_str(), other.root.as_str()) && text_eq(
            self.version.as_str(),
            other.version.as_str(),
        ) && same_path(self.editor.as_str(), other.editor.as_str()) && self.editor_available
            == other.editor_available && same_path(
            self.project_compiler.as_str(),
            other.project_compiler.as_str(),
        ) && self.project_compiler_available == other.project_compiler_available && same_path(
            self.player.as_str(),
            other.player.as_str(),
        ) && self.player_available == other.player_available
    }
}

impl Eq for EngineInstallation {

}

// ---------------------------------------------------------------------------
// Tools
// ---------------------------------------------------------------------------
/// Where the editor may be, the current layout first.
pub open spec fn editor_places() -> Seq<Seq<char>> {
    seq![
        "build/dev-clang/components/KairoEditor/KairoEditorApp"@,
        "build/dev/components/KairoEditor/KairoEditorApp"@,
        "build/release/components/KairoEditor/KairoEditorApp"@,
        "build/dev-clang/KairoEditor/KairoEditorApp"@,
        "build/dev/KairoEditor/KairoEditorApp"@,
        "build/release/KairoEditor/KairoEditorApp"@,
        "KairoEditor/build/KairoEditorApp"@,
    ]
}

/// Where the player may be.
pub open spec fn player_places() -> Seq<Seq<char>> {
    seq![
        "build/dev-clang/Runtime/KairoPlayer/KairoPlayer"@,
        "build/dev/Runtime/KairoPlayer/KairoPlayer"@,
        "build/release/Runtime/KairoPlayer/KairoPlayer"@,
    ]
}

/// Where the project compiler may be, the current layout first.
pub open spec fn compiler_places() -> Seq<Seq<char>> {
    seq![
        "build/dev-clang/components/KairoEditor/KairoProjectCompiler"@,
        "build/dev/components/KairoEditor/KairoProjectCompiler"@,
        "build/release/components/KairoEditor/KairoProjectCompiler"@,
        "build/dev-clang/KairoEditor/KairoProjectCompiler"@,
        "build/dev/KairoEditor/KairoProjectCompiler"@,
        "build/release/KairoEditor/KairoProjectCompiler"@,
        "KairoEditor/build/KairoProjectCompiler"@,
    ]
}

fn editor_list() -> (r: Vec<String>)
    ensures
        texts(r@) == editor_places(),
{
    let mut r: Vec<String> = Vec::new();
    r.push("build/dev-clang/components/KairoEditor/KairoEditorApp".to_owned());
    r.push("build/dev/components/KairoEditor/KairoEditorApp".to_owned());
    r.push("build/release/components/KairoEditor/KairoEditorApp".to_owned());
    r.push("build/dev-clang/KairoEditor/KairoEditorApp".to_owned());
    r.push("build/dev/KairoEditor/KairoEditorApp".to_owned());
    r.push("build/release/KairoEditor/KairoEditorApp".to_owned());
    r.push("KairoEditor/build/KairoEditorApp".to_owned());
    assert(texts(r@) =~= editor_places());
    r
}

fn player_list() -> (r: Vec<String>)
    ensures
        texts(r@) == player_places(),
{
    let mut r: Vec<String> = Vec::new();
    r.push("build/dev-clang/Runtime/KairoPlayer/KairoPlayer".to_owned());
    r.push("build/dev/Runtime/KairoPlayer/KairoPlayer".to_owned());
    r.push("build/release/Runtime/KairoPlayer/KairoPlayer".to_owned());
    assert(texts(r@) =~= player_places());
    r
}

fn compiler_list() -> (r: Vec<String>)
    ensures
        texts(r@) == compiler_places(),
{
    let mut r: Vec<String> = Vec::new();
    r.push("build/dev-clang/components/KairoEditor/KairoProjectCompiler".to_owned());
    r.push("build/dev/components/KairoEditor/KairoProjectCompiler".to_owned());
    r.push("build/release/components/KairoEditor/KairoProjectCompiler".to_owned());
    r.push("build/dev-clang/KairoEditor/KairoProjectCompiler".to_owned());
    r.push("build/dev/KairoEditor/KairoProjectCompiler".to_owned());
    r.push("build/release/KairoEditor/KairoProjectCompiler".to_owned());
    r.push("KairoEditor/build/KairoProjectCompiler".to_owned());
    assert(texts(r@) =~= compiler_places());
    r
}

/// A tool at one of its places. `extension` is what executables end in.
pub open spec fn tool_path(root: Seq<char>, place: Seq<char>, extension: Seq<char>) -> Seq<char> {
    join_of(root, place + extension)
}

/// The places of a tool below `root`.
pub open spec fn tool_paths(
    root: Seq<char>,
    places: Seq<Seq<char>>,
    extension: Seq<char>,
) -> Seq<Seq<char>> {
    places.map_values(|place: Seq<char>| tool_path(root, place, extension))
}

/// Where a tool is: the first of its places that exists, else the first place.
pub open spec fn tool_of(
    root: Seq<char>,
    places: Seq<Seq<char>>,
    extension: Seq<char>,
    existing: Seq<Seq<char>>,
) -> Seq<char> {
    let paths = tool_paths(root, places, extension);
    match first_existing(paths, existing, 0) {
        Some(path) => path,
        None => paths[0],
    }
}

fn with_extension(place: &str, extension: &str) -> (r: String)
    ensures
        r@ == place@ + extension@,
{
    let mut r = place.to_owned();
    r.append(extension);
    r
}

fn paths_of(root: &str, places: &Vec<String>, extension: &str) -> (r: Vec<String>)
    ensures
        texts(r@) == tool_paths(root@, texts(places@), extension@),
{
    let mut r: Vec<String> = Vec::new();
    let mut i: usize = 0;
    while i < places.len()
        invariant
            i <= places.len(),
            r@.len() == i,
            forall|j: int|
                0 <= j < i ==> #[trigger] r@[j]@ == tool_path(root@, places@[j]@, extension@),
        decreases places.len() - i,
    {
        let name = with_extension(places[i].as_str(), extension);
        r.push(join_path(root, name.as_str()));
        i += 1;
    }
    assert(texts(r@) =~= tool_paths(root@, texts(places@), extension@));
    r
}

/// Finds a tool below `root`.
pub fn engine_executable(
    root: &str,
    candidates: &Vec<String>,
    extension: &str,
    existing: &Vec<String>,
) -> (r: String)
    requires
        candidates@.len() > 0,
    ensures
        r@ == tool_of(root@, texts(candidates@), extension@, texts(existing@)),
{
    let paths = paths_of(root, candidates, extension);
    proof {
        assert(texts(paths@).len() == paths@.len());
        assert(texts(candidates@).len() == candidates@.len());
        assert(texts(paths@)[0] == paths@[0]@);
    }
    match find_existing(&paths, existing) {
        Some(path) => path,
        None => paths[0].clone(),
    }
}

/// All the places below `root` at which a tool may be: those of the editor, of
/// the player and of the project compiler.
pub fn engine_candidates(root: &str, extension: &str) -> (r: Vec<String>)
    ensures
        texts(r@) == tool_paths(root@, editor_places(), extension@) + tool_paths(
            root@,
            player_places(),
            extension@,
        ) + tool_paths(root@, compiler_places(), extension@),
{
    let mut r = paths_of(root, &editor_list(), extension);
    let mut players = paths_of(root, &player_list(), extension);
    let mut compilers = paths_of(root, &compiler_list(), extension);
    let ghost a = r@;
    let ghost b = players@;
    let ghost c = compilers@;
    r.append(&mut players);
    r.append(&mut compilers);
    assert(texts(r@) =~= texts(a) + texts(b) + texts(c));
    r
}

// ---------------------------------------------------------------------------
// Version
// ---------------------------------------------------------------------------
/// Where `needle` first stands in `s`.
pub open spec fn place_of(s: Seq<char>, needle: Seq<char>) -> Option<int> {
    if occurs(s, needle) {
        Some(choose|at: int| first_occurs_at(s, needle, at))
    } else {
        None
    }
}

pub proof fn lemma_place_of(s: Seq<char>, needle: Seq<char>, at: int)
    requires
        first_occurs_at(s, needle, at),
    ensures
        place_of(s, needle) == Some(at),
{
    let other = choose|other: int| first_occurs_at(s, needle, other);
    assert(occurs_at(s, needle, at) && occurs_at(s, needle, other));
    assert(other == at);
}

/// The text up to where `needle` first stands in it: all of it if it does not.
pub open spec fn up_to(s: Seq<char>, needle: Seq<char>) -> Seq<char> {
    match place_of(s, needle) {
        Some(at) => s.take(at),
        None => s,
    }
}

/// What stands between the first and the second `VERSION` of a line.
pub open spec fn version_tail(line: Seq<char>) -> Seq<char> {
    match place_of(line, "VERSION"@) {
        Some(at) => up_to(line.skip(at + "VERSION"@.len()), "VERSION"@),
        None => seq![],
    }
}

/// The characters before the first white space.
pub open spec fn word_at_start(s: Seq<char>) -> Seq<char>
    decreases s.len(),
{
    if s.len() == 0 || is_white_space(s[0]) {
        seq![]
    } else {
        seq![s[0]] + word_at_start(s.drop_first())
    }
}

/// The text without the `)` that end it.
pub open spec fn without_parentheses(s: Seq<char>) -> Seq<char>
    decreases s.len(),
{
    if s.len() > 0 && s.last() == ')' {
        without_parentheses(s.drop_last())
    } else {
        s
    }
}

/// A line that names the engine and a version.
pub open spec fn is_version_line(line: Seq<char>) -> bool {
    occurs(line, "project(KairoGameEngine"@) && occurs(line, "VERSION"@)
}

/// The version that a line gives: the first word behind `VERSION`.
pub open spec fn version_on(line: Seq<char>) -> Seq<char> {
    let word = word_at_start(trim_start(version_tail(line)));
    if word.len() == 0 {
        "development"@
    } else {
        without_parentheses(word)
    }
}

/// The version that the first version line gives, from line `at` on.
pub open spec fn version_from(all: Seq<Seq<char>>, at: int) -> Seq<char>
    decreases all.len() - at,
{
    if at < 0 || at >= all.len() {
        "development"@
    } else if is_version_line(all[at]) {
        version_on(all[at])
    } else {
        version_from(all, at + 1)
    }
}

/// The version that an engine's build file states.
pub open spec fn version_of(source: Seq<char>) -> Seq<char> {
    version_from(lines(source), 0)
}

fn first_word(s: &str) -> (r: String)
    ensures
        r@ == word_at_start(trim_start(s@)),
{
    let v = chars_of(s);
    let mut from: usize = 0;
    assert(s@.skip(0) =~= s@);
    while from < v.len() && white_space(v[from])
        invariant
            from <= v.len(),
            v@ == s@,
            trim_start(s@) == trim_start(s@.skip(from as int)),
        decreases v.len() - from,
    {
        assert(s@.skip(from as int).drop_first() =~= s@.skip(from + 1));
        from += 1;
    }
    let ghost t = s@.skip(from as int);
    assert(trim_start(s@) == t);
    let mut to: usize = from;
    assert(s@.subrange(from as int, to as int) + word_at_start(t) =~= word_at_start(t));
    assert(s@.skip(to as int) =~= t);
    while to < v.len() && !white_space(v[to])
        invariant
            from <= to <= v.len(),
            v@ == s@,
            word_at_start(t) == s@.subrange(from as int, to as int) + word_at_start(
                s@.skip(to as int),
            ),
        decreases v.len() - to,
    {
        let ghost rest = s@.skip(to as int);
        assert(rest.drop_first() =~= s@.skip(to + 1));
        assert(s@.subrange(from as int, to as int) + (seq![rest[0]] + word_at_start(
            rest.drop_first(),
        )) =~= s@.subrange(from as int, to + 1) + word_at_start(s@.skip(to + 1)));
        to += 1;
    }
    let r = string_of(slice_subrange(v.as_slice(), from, to));
    assert(r@ =~= word_at_start(t));
    r
}

fn drop_parentheses(s: &str) -> (r: String)
    ensures
        r@ == without_parentheses(s@),
{
    let v = chars_of(s);
    let mut n: usize = v.len();
    assert(s@.take(n as int) =~= s@);
    while n > 0 && v[n - 1] == ')'
        invariant
            n <= v.len(),
            v@ == s@,
            without_parentheses(s@) == without_parentheses(s@.take(n as int)),
        decreases n,
    {
        assert(s@.take(n as int).drop_last() =~= s@.take(n - 1));
        n -= 1;
    }
    take_chars(s, n)
}

fn read_version_tail(line: &str) -> (r: String)
    ensures
        r@ == version_tail(line@),
{
    let length = encoded_length(line);
    proof {
        lemma_byte_length_at_least(line@);
    }
    match find(line, "VERSION") {
        None => {
            let r = String::new();
            assert(r@ =~= Seq::<char>::empty());
            r
        },
        Some(at) => {
            proof {
                lemma_place_of(line@, "VERSION"@, at as int);
                reveal_strlit("VERSION");
                assert("VERSION"@.len() == 7);
                assert(at + 7 <= length);
            }
            let rest = skip_chars(line, at + 7);
            match find(rest.as_str(), "VERSION") {
                None => rest,
                Some(end) => {
                    proof {
                        lemma_place_of(rest@, "VERSION"@, end as int);
                    }
                    take_chars(rest.as_str(), end)
                },
            }
        },
    }
}

fn read_version(source: &str) -> (r: String)
    ensures
        r@ == version_of(source@),
{
    let all = lines_of(source);
    let ghost text_lines = lines(source@);
    let mut i: usize = 0;
    while i < all.len()
        invariant
            i <= all.len(),
            texts(all@) == text_lines,
            version_from(text_lines, 0) == version_from(text_lines, i as int),
            text_lines == lines(source@),
        decreases all.len() - i,
    {
        assert(text_lines[i as int] == all@[i as int]@);
        let line = all[i].as_str();
        if contains(line, "project(KairoGameEngine") && contains(line, "VERSION") {
            let tail = read_version_tail(line);
            let word = first_word(tail.as_str());
            if word.as_str().is_empty() {
                return "development".to_owned();
            }
            return drop_parentheses(word.as_str());
        }
        i += 1;
    }
    assert(text_lines.len() == all@.len());
    "development".to_owned()
}

// ---------------------------------------------------------------------------
// Inspection
// ---------------------------------------------------------------------------
/// The installation below `root`, or why it is none.
pub open spec fn installation_of(
    root: Seq<char>,
    source: Seq<char>,
    extension: Seq<char>,
    existing: Seq<Seq<char>>,
) -> Result<InstallationView, Seq<char>> {
    let editor = tool_of(root, editor_places(), extension, existing);
    let player = tool_of(root, player_places(), extension, existing);
    let compiler = tool_of(root, compiler_places(), extension, existing);
    if !occurs(source, "project(KairoGameEngine"@) {
        Err("Selected directory is not a KairoGameEngine umbrella checkout"@)
    } else {
        Ok(
            InstallationView {
                root,
                version: version_of(source),
                editor,
                editor_available: existing.contains(editor),
                project_compiler: compiler,
                project_compiler_available: existing.contains(compiler),
                player,
                player_available: existing.contains(player),
            },
        )
    }
}

/// The file that makes a directory an engine checkout.
pub fn engine_manifest(root: &str) -> (r: String)
    ensures
        r@ == join_of(root@, "CMakeLists.txt"@),
{
    join_path(root, "CMakeLists.txt")
}

/// Inspects the engine at `root`. `source` is the text of its manifest, or why it
/// could not be read; `existing` holds those of [`engine_candidates`] that are
/// regular files.
pub fn inspect_engine(
    root: &str,
    source: &Result<String, String>,
    extension: &str,
    existing: &Vec<String>,
) -> (r: Result<EngineInstallation, String>)
    ensures
        match *source {
            Err(error) => r matches Err(e) && e@ == "Cannot read engine manifest "@ + join_of(
                root@,
                "CMakeLists.txt"@,
            ) + ": "@ + error@,
            Ok(text) => match r {
                Ok(installation) => installation_of(root@, text@, extension@, texts(existing@))
                    == Ok::<_, Seq<char>>(installation@),
                Err(e) => installation_of(root@, text@, extension@, texts(existing@)) == Err::<
                    InstallationView,
                    _,
                >(e@),
            },
        },
{
    let text = match source {
        Ok(text) => text,
        Err(error) => {
            let mut e = "Cannot read engine manifest ".to_owned();
            e.append(engine_manifest(root).as_str());
            e.append(": ");
            e.append(error.as_str());
            return Err(e);
        },
    };
    if !contains(text.as_str(), "project(KairoGameEngine") {
        return Err("Selected directory is not a KairoGameEngine umbrella checkout".to_owned());
    }
    let version = read_version(text.as_str());
    let editors = editor_list();
    let players = player_list();
    let compilers = compiler_list();
    proof {
        assert(texts(editors@).len() == editors@.len());
        assert(texts(players@).len() == players@.len());
        assert(texts(compilers@).len() == compilers@.len());
    }
    let editor = engine_executable(root, &editors, extension, existing);
    let player = engine_executable(root, &players, extension, existing);
    let project_compiler = engine_executable(root, &compilers, extension, existing);
    Ok(
        EngineInstallation {
            root: root.to_owned(),
            version,
            editor_available: holds_text(existing, editor.as_str()),
            editor,
            project_compiler_available: holds_text(existing, project_compiler.as_str()),
            project_compiler,
            player_available: holds_text(existing, player.as_str()),
            player,
        },
    )
}

// ---------------------------------------------------------------------------
// The editor without a selected installation
// ---------------------------------------------------------------------------
/// Where the editor is looked for: at the path that names it, below the engine
/// root, and beside and below the working directory.
pub open spec fn editor_search(
    explicit: Option<Seq<char>>,
    engine_root: Option<Seq<char>>,
    current: Option<Seq<char>>,
) -> Seq<Seq<char>> {
    let named = match explicit {
        Some(path) => seq![path],
        None => seq![],
    };
    let below_root = match engine_root {
        Some(root) => seq![join_of(root, "KairoEditor/build/KairoEditorApp"@)],
        None => seq![],
    };
    let nearby = match current {
        Some(dir) => seq![
            join_of(dir, "KairoEditor/build/KairoEditorApp"@),
            join_of(dir, "../KairoEditor/build/KairoEditorApp"@),
        ],
        None => seq![],
    };
    named + below_root + nearby
}

/// The paths at which the editor is looked for. `explicit` and `engine_root` come
/// from the environment, `current` is the working directory.
pub fn editor_candidates(
    explicit: &Option<String>,
    engine_root: &Option<String>,
    current: &Option<String>,
) -> (r: Vec<String>)
    ensures
        texts(r@) == editor_search(
            opt_text(*explicit),
            opt_text(*engine_root),
            opt_text(*current),
        ),
{
    let mut r: Vec<String> = Vec::new();
    assert(texts(r@) =~= Seq::<Seq<char>>::empty());
    if let Some(path) = explicit {
        let path = path.clone();
        proof {
            lemma_texts_push(r@, path);
        }
        r.push(path);
    }
    if let Some(root) = engine_root {
        let path = join_path(root.as_str(), "KairoEditor/build/KairoEditorApp");
        proof {
            lemma_texts_push(r@, path);
        }
        r.push(path);
    }
    if let Some(dir) = current {
        let below = join_path(dir.as_str(), "KairoEditor/build/KairoEditorApp");
        proof {
            lemma_texts_push(r@, below);
        }
        r.push(below);
        let beside = join_path(dir.as_str(), "../KairoEditor/build/KairoEditorApp");
        proof {
            lemma_texts_push(r@, beside);
        }
        r.push(beside);
    }
    assert(texts(r@) =~= editor_search(
        opt_text(*explicit),
        opt_text(*engine_root),
        opt_text(*current),
    ));
    r
}

/// Finds the editor among `candidates`; `existing` holds those that are regular
/// files.
pub fn discover_editor(candidates: &Vec<String>, existing: &Vec<String>) -> (r: Result<
    String,
    String,
>)
    ensures
        match r {
            Ok(path) => first_existing(texts(candidates@), texts(existing@), 0) == Some(path@),
            Err(e) => first_existing(texts(candidates@), texts(existing@), 0) is None && e@
                == "KairoEditor executable was not found. Set KAIRO_EDITOR_EXECUTABLE or KAIRO_ENGINE_ROOT."@,
        },
{
    match find_existing(candidates, existing) {
        Some(path) => Ok(path),
        None => Err(
            "KairoEditor executable was not found. Set KAIRO_EDITOR_EXECUTABLE or KAIRO_ENGINE_ROOT.".to_owned(),
        ),
    }
}

// ---------------------------------------------------------------------------
// Laws
// ---------------------------------------------------------------------------
/// A tool is found at the first of its places that exists. It is available if
/// and only if it exists at one of its places; where it does not, the first place
/// stands for it.
pub proof fn law_tool_is_at_its_first_place(
    root: Seq<char>,
    places: Seq<Seq<char>>,
    extension: Seq<char>,
    existing: Seq<Seq<char>>,
)
    requires
        places.len() > 0,
    ensures
        ({
            let paths = tool_paths(root, places, extension);
            let tool = tool_of(root, places, extension, existing);
            &&& existing.contains(tool) <==> exists|i: int|
                0 <= i < paths.len() && existing.contains(#[trigger] paths[i])
            &&& existing.contains(tool) ==> exists|i: int|
                0 <= i < paths.len() && #[trigger] paths[i] == tool && forall|j: int|
                    0 <= j < i ==> !existing.contains(#[trigger] paths[j])
            &&& !existing.contains(tool) ==> tool == paths[0]
        }),
{
    let paths = tool_paths(root, places, extension);
    lemma_first_existing(paths, existing, 0);
    assert(!existing.contains(paths[0]) || first_existing(paths, existing, 0) is Some);
}

} // verus!
