//! The files that the Hub writes for a project: those of a new one, and those
//! that a repair puts back.
use vstd::prelude::*;

use crate::descriptor::{parse_project, project_of, MAX_PROJECT_BYTES};
use crate::generate::{
    can_be_generated, descriptor_file, descriptor_text, generated_descriptor,
    law_generated_descriptor_is_accepted, lemma_not_blank, lemma_two_components, Generated,
};
use crate::path::{
    components, directory_of, directory_path, dot_dot, extension_of, file_name_of, is_same_path,
    join_of, join_path, last_name, lemma_last_index_is, lemma_single_component,
    relative_path_fault, tail_trimmed,
};
use crate::process::Outcome;
use crate::text::{
    ascii_word, blank, byte_length, chars_of, is_ascii_word, is_blank, is_single_line,
    lemma_trimmed_again, lemma_trimmed_single_line, single_line, texts, trim, trimmed,
};

verus! {

/// The input map of a new project.
pub const STARTER_INPUT_MAP: &'static str = "kairo-input 1\naction \"Move\" axis2d\naction \"Look\" axis2d\naction \"Jump\" button\naction \"Quit\" button\nbind \"Move\" key W 0 1 0\nbind \"Move\" key S 0 -1 0\nbind \"Move\" key A -1 0 0\nbind \"Move\" key D 1 0 0\nbind \"Move\" gamepad-axis LeftX 1 0 0.15\nbind \"Move\" gamepad-axis LeftY 0 -1 0.15\nbind \"Look\" gamepad-axis RightX 1 0 0.15\nbind \"Look\" gamepad-axis RightY 0 -1 0.15\nbind \"Jump\" key Space 1 0 0\nbind \"Jump\" gamepad-button A 1 0 0\nbind \"Quit\" key Escape 1 0 0\n";

/// The asset manifest of a new project.
pub const STARTER_ASSETS: &'static str = "kairo-assets 1\nasset 00000000-0000-4000-8000-000000000202 material builtin 1 \"builtin/default-material\" \"kairo.builtin\"\nend\n";

/// An asset manifest without assets.
pub const EMPTY_ASSETS: &'static str = "kairo-assets 1\n";

/// A scene without entities.
pub const EMPTY_SCENE: &'static str = "kairo-scene 1\n";

/// A file to be written.
#[derive(Debug)]
pub struct PlannedFile {
    pub path: String,
    pub contents: String,
}

pub struct FileView {
    pub path: Seq<char>,
    pub contents: Seq<char>,
}

impl View for PlannedFile {
    type V = FileView;

    open spec fn view(&self) -> FileView {
        FileView { path: self.path@, contents: self.contents@ }
    }
}

pub open spec fn file_views(v: Seq<PlannedFile>) -> Seq<FileView> {
    v.map_values(|f: PlannedFile| f@)
}

// ---------------------------------------------------------------------------
// New projects
// ---------------------------------------------------------------------------
/// A new project, before anything is written.
#[derive(Debug)]
pub struct NewProject {
    /// The project's own directory.
    pub root: String,
    /// The directories to make.
    pub directories: Vec<String>,
    /// The files to write, in this order.
    pub files: Vec<PlannedFile>,
    /// The descriptor's path.
    pub descriptor: String,
}

pub struct NewProjectView {
    pub root: Seq<char>,
    pub directories: Seq<Seq<char>>,
    pub files: Seq<FileView>,
    pub descriptor: Seq<char>,
}

impl View for NewProject {
    type V = NewProjectView;

    open spec fn view(&self) -> NewProjectView {
        NewProjectView {
            root: self.root@,
            directories: texts(self.directories@),
            files: file_views(self.files@),
            descriptor: self.descriptor@,
        }
    }
}

/// A folder name of letters, digits, `-` and `_`.
pub open spec fn is_folder_name(s: Seq<char>) -> bool {
    &&& s.len() > 0
    &&& forall|i: int|
        0 <= i < s.len() ==> is_ascii_word(#[trigger] s[i]) || s[i] == '-' || s[i] == '_'
}

/// What the descriptor of a new project is about.
pub open spec fn starter(display_name: Seq<char>) -> Generated {
    Generated {
        name: trimmed(display_name),
        engine_version: "0.1.0"@,
        assets: "Assets.kassets"@,
        startup_scene: "Scenes/Main.kscene"@,
        input_map: "Config/Input.kinput"@,
    }
}

/// A new project, or the message that refuses its names.
pub open spec fn new_project_of(
    parent: Seq<char>,
    folder_name: Seq<char>,
    display_name: Seq<char>,
) -> Result<NewProjectView, Seq<char>> {
    let root = join_of(parent, folder_name);
    let descriptor = join_of(root, folder_name + ".kproject"@);
    if !is_folder_name(folder_name) {
        Err("Project folder must contain only letters, digits, '-' or '_'"@)
    } else if is_blank(display_name) || !is_single_line(display_name) {
        Err("Project display name must be non-empty and single-line"@)
    } else {
        Ok(
            NewProjectView {
                root,
                directories: seq![
                    join_of(root, "Scenes"@),
                    join_of(root, "Config"@),
                    join_of(root, ".kairo"@),
                ],
                files: seq![
                    FileView {
                        path: join_of(root, "Assets.kassets"@),
                        contents: STARTER_ASSETS@,
                    },
                    FileView {
                        path: join_of(root, "Scenes/Main.kscene"@),
                        contents: EMPTY_SCENE@,
                    },
                    FileView {
                        path: join_of(root, "Config/Input.kinput"@),
                        contents: STARTER_INPUT_MAP@,
                    },
                    FileView { path: descriptor, contents: descriptor_file(starter(display_name)) },
                ],
                descriptor,
            },
        )
    }
}

fn folder_name_ok(s: &str) -> (r: bool)
    ensures
        r == is_folder_name(s@),
{
    let v = chars_of(s);
    if v.len() == 0 {
        return false;
    }
    let mut i: usize = 0;
    while i < v.len()
        invariant
            i <= v.len(),
            v@ == s@,
            forall|j: int|
                0 <= j < i ==> is_ascii_word(#[trigger] s@[j]) || s@[j] == '-' || s@[j] == '_',
        decreases v.len() - i,
    {
        let c = v[i];
        if !(ascii_word(c) || c == '-' || c == '_') {
            assert(s@[i as int] == c);
            return false;
        }
        i += 1;
    }
    true
}

/// Plans a new project: the directories and files of a project that can be
/// opened at once, or why the names do not do.
pub fn create_project(parent: &str, folder_name: &str, display_name: &str) -> (r: Result<
    NewProject,
    String,
>)
    ensures
        match r {
            Ok(p) => new_project_of(parent@, folder_name@, display_name@) == Ok::<_, Seq<char>>(p@),
            Err(e) => new_project_of(parent@, folder_name@, display_name@) == Err::<
                NewProjectView,
                _,
            >(e@),
        },
{
    if !folder_name_ok(folder_name) {
        return Err("Project folder must contain only letters, digits, '-' or '_'".to_owned());
    }
    if blank(display_name) || !single_line(display_name) {
        return Err("Project display name must be non-empty and single-line".to_owned());
    }
    let root = join_path(parent, folder_name);
    let mut file_name = folder_name.to_owned();
    file_name.append(".kproject");
    let descriptor = join_path(root.as_str(), file_name.as_str());
    let mut directories: Vec<String> = Vec::new();
    directories.push(join_path(root.as_str(), "Scenes"));
    directories.push(join_path(root.as_str(), "Config"));
    directories.push(join_path(root.as_str(), ".kairo"));
    let name = trim(display_name);
    let text = descriptor_text(
        name.as_str(),
        "0.1.0",
        "Assets.kassets",
        "Scenes/Main.kscene",
        "Config/Input.kinput",
    );
    let mut files: Vec<PlannedFile> = Vec::new();
    files.push(
        PlannedFile {
            path: join_path(root.as_str(), "Assets.kassets"),
            contents: STARTER_ASSETS.to_owned(),
        },
    );
    files.push(
        PlannedFile {
            path: join_path(root.as_str(), "Scenes/Main.kscene"),
            contents: EMPTY_SCENE.to_owned(),
        },
    );
    files.push(
        PlannedFile {
            path: join_path(root.as_str(), "Config/Input.kinput"),
            contents: STARTER_INPUT_MAP.to_owned(),
        },
    );
    files.push(PlannedFile { path: descriptor.clone(), contents: text });
    let project = NewProject { root, directories, files, descriptor };
    proof {
        let view = new_project_of(parent@, folder_name@, display_name@)->Ok_0;
        assert(project@.directories =~= view.directories);
        assert(project@.files =~= view.files);
    }
    Ok(project)
}

/// The descriptor's path: the project's directory, its folder name again, and
/// the extension.
proof fn lemma_descriptor_path(root: Seq<char>, folder_name: Seq<char>)
    requires
        root.len() > 0,
        root.last() != '/' && root.last() != '.',
        is_folder_name(folder_name),
    ensures
        directory_of(join_of(root, folder_name + ".kproject"@)) == root,
        file_name_of(join_of(root, folder_name + ".kproject"@)) == Some(folder_name + ".kproject"@),
        extension_of(join_of(root, folder_name + ".kproject"@)) == Some("kproject"@),
{
    reveal_strlit(".kproject");
    reveal_strlit("kproject");
    let file = folder_name + ".kproject"@;
    let path = join_of(root, file);
    let k = folder_name.len() as int;
    assert(file[0] == folder_name[0]);
    assert(path == root.push('/') + file);
    assert(path.last() == 't');
    assert(tail_trimmed(path) == path);
    assert forall|i: int| root.len() < i < path.len() implies path[i] != '/' by {
        let j = i - root.len() - 1;
        assert(path[i] == file[j]);
        if j < k {
            assert(file[j] == folder_name[j]);
        } else {
            assert(file[j] == ".kproject"@[j - k]);
        }
    }
    lemma_last_index_is(path, '/', root.len() as int);
    let above = path.take(root.len() as int + 1);
    assert(above =~= root.push('/'));
    assert(above.drop_last() =~= root);
    assert(tail_trimmed(root) == root);
    assert(last_name(path) =~= file);
    assert(file.len() >= 9);
    assert forall|j: int| k < j < file.len() implies file[j] != '.' by {
        assert(file[j] == ".kproject"@[j - k]);
    }
    lemma_last_index_is(file, '.', k);
    assert(file.skip(k + 1) =~= "kproject"@);
}

proof fn lemma_starter_can_be_generated(display_name: Seq<char>)
    requires
        !is_blank(display_name),
        is_single_line(display_name),
        byte_length(descriptor_file(starter(display_name))) <= MAX_PROJECT_BYTES,
    ensures
        can_be_generated(starter(display_name)),
{
    lemma_trimmed_again(display_name);
    lemma_trimmed_single_line(display_name);
    reveal_strlit("0.1.0");
    reveal_strlit("Assets.kassets");
    reveal_strlit("Scenes/Main.kscene");
    reveal_strlit("Config/Input.kinput");
    reveal_strlit("Scenes");
    reveal_strlit("Main.kscene");
    reveal_strlit("Config");
    reveal_strlit("Input.kinput");
    lemma_not_blank("0.1.0"@);
    assert("Scenes/Main.kscene"@ =~= "Scenes"@.push('/') + "Main.kscene"@);
    assert("Config/Input.kinput"@ =~= "Config"@.push('/') + "Input.kinput"@);
    lemma_two_components("Scenes"@, "Main.kscene"@, "Scenes/Main.kscene"@);
    lemma_two_components("Config"@, "Input.kinput"@, "Config/Input.kinput"@);
    lemma_single_component("Assets.kassets"@);
    assert(components("Assets.kassets"@).len() != components("Scenes/Main.kscene"@).len());
    assert(relative_path_fault("Assets.kassets"@, "assets"@) is None) by {
        assert(components("Assets.kassets"@)[0].len() == 14);
        assert(!components("Assets.kassets"@).contains(dot_dot()));
    }
}

/// A new project can be opened at once. Its descriptor is a `.kproject` file in
/// the project's directory; the descriptor is accepted and holds the trimmed
/// display name; and each file that it refers to is written with it. A name so
/// long that its descriptor is larger than a descriptor may be is the exception.
pub proof fn law_new_project_is_complete(
    parent: Seq<char>,
    folder_name: Seq<char>,
    display_name: Seq<char>,
)
    requires
        new_project_of(parent, folder_name, display_name) is Ok,
        byte_length(descriptor_file(starter(display_name))) <= MAX_PROJECT_BYTES,
    ensures
        ({
            let p = new_project_of(parent, folder_name, display_name)->Ok_0;
            let d = generated_descriptor(starter(display_name));
            &&& directory_of(p.descriptor) == p.root
            &&& extension_of(p.descriptor) == Some("kproject"@)
            &&& d.name == trimmed(display_name)
            &&& p.files.last().path == p.descriptor
            &&& project_of(p.files.last().contents) == Ok::<_, Seq<char>>(d)
            &&& p.files[0].path == join_of(p.root, d.asset_manifest)
            &&& p.files[1].path == join_of(p.root, d.startup_scene)
            &&& p.files[2].path == join_of(p.root, d.input_map)
        }),
{
    let root = join_of(parent, folder_name);
    assert(root.last() == folder_name.last());
    lemma_descriptor_path(root, folder_name);
    lemma_starter_can_be_generated(display_name);
    law_generated_descriptor_is_accepted(starter(display_name));
}

/// Refuses to write a new project where something stands already.
pub fn check_new_root(project: &NewProject, exists: bool) -> (r: Result<(), String>)
    ensures
        r is Ok <==> !exists,
        r matches Err(e) ==> e@ == "Project directory already exists: "@ + project@.root,
{
    if exists {
        let mut e = "Project directory already exists: ".to_owned();
        e.append(project.root.as_str());
        return Err(e);
    }
    Ok(())
}

/// Ends the writing of a new project: a project that was not written whole is
/// removed.
pub fn conclude_creation(project: NewProject, written: Result<(), String>) -> (r: Outcome)
    ensures
        match written {
            Ok(_) => r.result matches Ok(path) && path@ == project@.descriptor && r.remove is None,
            Err(e) => r.result == Err::<String, _>(e) && (r.remove matches Some(root) && root@
                == project@.root),
        },
{
    match written {
        Ok(_) => Outcome { result: Ok(project.descriptor), remove: None },
        Err(e) => Outcome { result: Err(e), remove: Some(project.root) },
    }
}

// ---------------------------------------------------------------------------
// Repair
// ---------------------------------------------------------------------------
/// The files that a project at `path` cannot do without, with what a repair puts
/// in each, or why there are none.
pub open spec fn repair_files_of(path: Seq<char>, source: Seq<char>) -> Result<
    Seq<FileView>,
    Seq<char>,
> {
    let root = directory_of(path);
    match project_of(source) {
        Err(e) => Err(e),
        Ok(d) => Ok(
            seq![
                FileView { path: join_of(root, d.asset_manifest), contents: EMPTY_ASSETS@ },
                FileView { path: join_of(root, d.startup_scene), contents: EMPTY_SCENE@ },
                FileView { path: join_of(root, d.input_map), contents: STARTER_INPUT_MAP@ },
            ],
        ),
    }
}

/// Plans the repair of the project at `path`: the files that must be there, each
/// with what it gets if it is missing. `source` is the descriptor's text, or why
/// it could not be read.
pub fn repair_project(path: &str, source: &Result<String, String>) -> (r: Result<
    Vec<PlannedFile>,
    String,
>)
    ensures
        match *source {
            Err(error) => r matches Err(e) && e@ == "Cannot read project descriptor: "@ + error@,
            Ok(text) => match r {
                Ok(files) => repair_files_of(path@, text@) == Ok::<_, Seq<char>>(
                    file_views(files@),
                ),
                Err(e) => repair_files_of(path@, text@) == Err::<Seq<FileView>, _>(e@),
            },
        },
{
    let text = match source {
        Ok(text) => text,
        Err(error) => {
            let mut e = "Cannot read project descriptor: ".to_owned();
            e.append(error.as_str());
            return Err(e);
        },
    };
    let d = match parse_project(text.as_str()) {
        Ok(d) => d,
        Err(e) => {
            return Err(e);
        },
    };
    let root = directory_path(path);
    let mut files: Vec<PlannedFile> = Vec::new();
    files.push(
        PlannedFile {
            path: join_path(root.as_str(), d.asset_manifest.as_str()),
            contents: EMPTY_ASSETS.to_owned(),
        },
    );
    files.push(
        PlannedFile {
            path: join_path(root.as_str(), d.startup_scene.as_str()),
            contents: EMPTY_SCENE.to_owned(),
        },
    );
    files.push(
        PlannedFile {
            path: join_path(root.as_str(), d.input_map.as_str()),
            contents: STARTER_INPUT_MAP.to_owned(),
        },
    );
    assert(file_views(files@) =~= repair_files_of(path@, text@)->Ok_0);
    Ok(files)
}

/// Decides on one file of a repair: it is written only if nothing stands there.
pub fn repair_step(file: PlannedFile, exists: bool) -> (r: Option<PlannedFile>)
    ensures
        exists ==> r is None,
        !exists ==> r == Some(file),
{
    if exists {
        None
    } else {
        Some(file)
    }
}

/// What is on a disk: the contents of each file, by the components of its path.
pub type Contents = Map<Seq<Seq<char>>, Seq<char>>;

/// What is on the disk after a repair that takes `files` in turn, each written
/// only where nothing stands.
pub open spec fn repaired(disk: Contents, files: Seq<FileView>) -> Contents
    decreases files.len(),
{
    if files.len() == 0 {
        disk
    } else {
        let before = repaired(disk, files.drop_last());
        if before.contains_key(components(files.last().path)) {
            before
        } else {
            before.insert(components(files.last().path), files.last().contents)
        }
    }
}

/// An earlier file of the repair is the same file.
pub open spec fn repaired_before(files: Seq<FileView>, at: int) -> bool {
    exists|j: int| 0 <= j < at && is_same_path((#[trigger] files[j]).path, files[at].path)
}

/// A repair never changes a file that is there, and leaves none of its files
/// missing. A file that was missing gets the contents that the repair has for it,
/// unless an earlier one of the repair's files is the same file: then it is there
/// already, with the contents of that one. Nothing else appears.
pub proof fn law_repair_keeps_existing_files(disk: Contents, files: Seq<FileView>)
    ensures
        forall|key: Seq<Seq<char>>|
            disk.contains_key(key) ==> #[trigger] repaired(disk, files).contains_key(key)
                && repaired(disk, files)[key] == disk[key],
        forall|i: int|
            0 <= i < files.len() ==> repaired(disk, files).contains_key(
                components((#[trigger] files[i]).path),
            ),
        forall|i: int|
            0 <= i < files.len() && !disk.contains_key(components((#[trigger] files[i]).path))
                && !repaired_before(files, i) ==> repaired(disk, files)[components(files[i].path)]
                == files[i].contents,
        forall|key: Seq<Seq<char>>| #[trigger]
            repaired(disk, files).contains_key(key) ==> disk.contains_key(key) || exists|i: int|
                0 <= i < files.len() && components((#[trigger] files[i]).path) == key,
    decreases files.len(),
{
    if files.len() > 0 {
        let less = files.drop_last();
        law_repair_keeps_existing_files(disk, less);
        let before = repaired(disk, less);
        let after = repaired(disk, files);
        assert forall|i: int| 0 <= i < files.len() implies after.contains_key(
            components((#[trigger] files[i]).path),
        ) by {
            if i < less.len() {
                assert(before.contains_key(components(less[i].path)));
            }
        }
        assert forall|i: int|
            0 <= i < files.len() && !disk.contains_key(components((#[trigger] files[i]).path))
                && !repaired_before(files, i) implies after[components(files[i].path)]
            == files[i].contents by {
            let key = components(files[i].path);
            if i < less.len() {
                assert(less[i] == files[i]);
                assert(!repaired_before(less, i)) by {
                    if repaired_before(less, i) {
                        let j = choose|j: int|
                            0 <= j < i && is_same_path((#[trigger] less[j]).path, less[i].path);
                        assert(is_same_path(files[j].path, files[i].path));
                    }
                }
                assert(before.contains_key(components(less[i].path)));
            } else if before.contains_key(key) {
                let j = choose|j: int|
                    0 <= j < less.len() && components((#[trigger] less[j]).path) == key;
                assert(is_same_path(files[j].path, files[i].path));
            }
        }
        assert forall|key: Seq<Seq<char>>| #[trigger] after.contains_key(key) implies
            disk.contains_key(key) || exists|i: int|
            0 <= i < files.len() && components((#[trigger] files[i]).path) == key by {
            if before.contains_key(key) {
                if !disk.contains_key(key) {
                    let i = choose|i: int|
                        0 <= i < less.len() && components((#[trigger] less[i]).path) == key;
                    assert(components(files[i].path) == key);
                }
            } else {
                assert(components(files[files.len() - 1].path) == key);
            }
        }
    }
}

/// After a repair, the three files that the descriptor refers to are there. One
/// that was missing has what a repair puts in it, unless an earlier one of the
/// three is the same file.
pub proof fn law_repaired_project_has_its_files(
    path: Seq<char>,
    source: Seq<char>,
    disk: Contents,
)
    requires
        project_of(source) is Ok,
    ensures
        ({
            let d = project_of(source)->Ok_0;
            let files = repair_files_of(path, source)->Ok_0;
            let after = repaired(disk, files);
            let manifest = components(join_of(directory_of(path), d.asset_manifest));
            let scene = components(join_of(directory_of(path), d.startup_scene));
            let input_map = components(join_of(directory_of(path), d.input_map));
            &&& after.contains_key(manifest)
            &&& after.contains_key(scene)
            &&& after.contains_key(input_map)
            &&& !disk.contains_key(manifest) ==> after[manifest] == EMPTY_ASSETS@
            &&& !disk.contains_key(scene) && scene != manifest ==> after[scene] == EMPTY_SCENE@
            &&& !disk.contains_key(input_map) && input_map != manifest && input_map != scene
                ==> after[input_map] == STARTER_INPUT_MAP@
        }),
{
    let files = repair_files_of(path, source)->Ok_0;
    law_repair_keeps_existing_files(disk, files);
    let after = repaired(disk, files);
    assert(after.contains_key(components(files[0].path)));
    assert(after.contains_key(components(files[1].path)));
    assert(after.contains_key(components(files[2].path)));
    assert(!repaired_before(files, 0));
    if components(files[1].path) != components(files[0].path) {
        assert(!repaired_before(files, 1));
    }
    if components(files[2].path) != components(files[0].path) && components(files[2].path)
        != components(files[1].path) {
        assert(!repaired_before(files, 2));
    }
}

} // verus!
