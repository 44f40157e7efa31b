//! What is written for new projects, and by a repair.
use vstd::prelude::*;

use crate::bootstrap::{
    is_folder_name, new_project_of, repair_files_of, EMPTY_ASSETS, EMPTY_SCENE, STARTER_ASSETS,
    STARTER_INPUT_MAP,
};
use crate::descriptor::{project_of, DescriptorView, ProfileView};
use crate::generate::{
    descriptor_file, descriptor_rows, header_row, lemma_profile_row_text, lemma_statement_file_push,
    lemma_value_row_text, profile_row, statement_file, value_row, Generated,
};
use crate::laws::path::law_name_is_put_below;
use crate::laws::text::law_character_classes;
use crate::path::{components, directory_of, join_of};
use crate::text::{is_blank, is_single_line, trimmed};
use crate::token::{quoted, row, Word};

verus! {

/// What the files of a new project and of a repair say.
pub proof fn law_starter_files()
    ensures
        EMPTY_ASSETS@ == "kairo-assets 1"@ + "\n"@,
        EMPTY_SCENE@ == "kairo-scene 1"@ + "\n"@,
        STARTER_ASSETS@ == "kairo-assets 1\n"@
            + "asset 00000000-0000-4000-8000-000000000202 material builtin 1 "@
            + "\"builtin/default-material\" \"kairo.builtin\"\n"@ + "end\n"@,
{
    reveal_strlit("\n");
    reveal_strlit("kairo-assets 1");
    reveal_strlit("kairo-assets 1\n");
    reveal_strlit("kairo-scene 1");
    reveal_strlit("kairo-scene 1\n");
    reveal_strlit("asset 00000000-0000-4000-8000-000000000202 material builtin 1 ");
    reveal_strlit("\"builtin/default-material\" \"kairo.builtin\"\n");
    reveal_strlit("end\n");
    reveal_strlit(
        "kairo-assets 1\nasset 00000000-0000-4000-8000-000000000202 material builtin 1 \"builtin/default-material\" \"kairo.builtin\"\nend\n",
    );
    assert(EMPTY_ASSETS@ =~= "kairo-assets 1"@ + "\n"@);
    assert(EMPTY_SCENE@ =~= "kairo-scene 1"@ + "\n"@);
    assert(STARTER_ASSETS@ =~= "kairo-assets 1\n"@
        + "asset 00000000-0000-4000-8000-000000000202 material builtin 1 "@
        + "\"builtin/default-material\" \"kairo.builtin\"\n"@ + "end\n"@);
}

/// The input map of a new project has four actions, each bound.
#[verifier::rlimit(60)]
pub proof fn law_starter_input_map()
    ensures
        STARTER_INPUT_MAP@ == "kairo-input 1\n"@
            + "action \"Move\" axis2d\n"@
            + "action \"Look\" axis2d\n"@
            + "action \"Jump\" button\n"@
            + "action \"Quit\" button\n"@
            + "bind \"Move\" key W 0 1 0\n"@
            + "bind \"Move\" key S 0 -1 0\n"@
            + "bind \"Move\" key A -1 0 0\n"@
            + "bind \"Move\" key D 1 0 0\n"@
            + "bind \"Move\" gamepad-axis LeftX 1 0 0.15\n"@
            + "bind \"Move\" gamepad-axis LeftY 0 -1 0.15\n"@
            + "bind \"Look\" gamepad-axis RightX 1 0 0.15\n"@
            + "bind \"Look\" gamepad-axis RightY 0 -1 0.15\n"@
            + "bind \"Jump\" key Space 1 0 0\n"@
            + "bind \"Jump\" gamepad-button A 1 0 0\n"@
            + "bind \"Quit\" key Escape 1 0 0\n"@,
{
    reveal_strlit("kairo-input 1\n");
    reveal_strlit("action \"Move\" axis2d\n");
    reveal_strlit("action \"Look\" axis2d\n");
    reveal_strlit("action \"Jump\" button\n");
    reveal_strlit("action \"Quit\" button\n");
    reveal_strlit("bind \"Move\" key W 0 1 0\n");
    reveal_strlit("bind \"Move\" key S 0 -1 0\n");
    reveal_strlit("bind \"Move\" key A -1 0 0\n");
    reveal_strlit("bind \"Move\" key D 1 0 0\n");
    reveal_strlit("bind \"Move\" gamepad-axis LeftX 1 0 0.15\n");
    reveal_strlit("bind \"Move\" gamepad-axis LeftY 0 -1 0.15\n");
    reveal_strlit("bind \"Look\" gamepad-axis RightX 1 0 0.15\n");
    reveal_strlit("bind \"Look\" gamepad-axis RightY 0 -1 0.15\n");
    reveal_strlit("bind \"Jump\" key Space 1 0 0\n");
    reveal_strlit("bind \"Jump\" gamepad-button A 1 0 0\n");
    reveal_strlit("bind \"Quit\" key Escape 1 0 0\n");
    reveal_strlit(
        "kairo-input 1\naction \"Move\" axis2d\naction \"Look\" axis2d\naction \"Jump\" button\naction \"Quit\" button\nbind \"Move\" key W 0 1 0\nbind \"Move\" key S 0 -1 0\nbind \"Move\" key A -1 0 0\nbind \"Move\" key D 1 0 0\nbind \"Move\" gamepad-axis LeftX 1 0 0.15\nbind \"Move\" gamepad-axis LeftY 0 -1 0.15\nbind \"Look\" gamepad-axis RightX 1 0 0.15\nbind \"Look\" gamepad-axis RightY 0 -1 0.15\nbind \"Jump\" key Space 1 0 0\nbind \"Jump\" gamepad-button A 1 0 0\nbind \"Quit\" key Escape 1 0 0\n",
    );
    assert(STARTER_INPUT_MAP@ =~= "kairo-input 1\n"@
            + "action \"Move\" axis2d\n"@
            + "action \"Look\" axis2d\n"@
            + "action \"Jump\" button\n"@
            + "action \"Quit\" button\n"@
            + "bind \"Move\" key W 0 1 0\n"@
            + "bind \"Move\" key S 0 -1 0\n"@
            + "bind \"Move\" key A -1 0 0\n"@
            + "bind \"Move\" key D 1 0 0\n"@
            + "bind \"Move\" gamepad-axis LeftX 1 0 0.15\n"@
            + "bind \"Move\" gamepad-axis LeftY 0 -1 0.15\n"@
            + "bind \"Look\" gamepad-axis RightX 1 0 0.15\n"@
            + "bind \"Look\" gamepad-axis RightY 0 -1 0.15\n"@
            + "bind \"Jump\" key Space 1 0 0\n"@
            + "bind \"Jump\" gamepad-button A 1 0 0\n"@
            + "bind \"Quit\" key Escape 1 0 0\n"@);
}

/// A new project is planned just if its folder is named by letters, digits, `-`
/// and `_`, and its display name is one line and not blank. Else the first of
/// these is the reason.
pub proof fn law_new_project_needs_names(
    parent: Seq<char>,
    folder: Seq<char>,
    display: Seq<char>,
)
    ensures
        ({
            let named = folder.len() > 0 && forall|i: int|
                0 <= i < folder.len() ==> {
                    let c = #[trigger] folder[i];
                    ||| '0' <= c <= '9'
                    ||| 'A' <= c <= 'Z'
                    ||| 'a' <= c <= 'z'
                    ||| c == '_'
                    ||| c == '-'
                };
            match new_project_of(parent, folder, display) {
                Ok(_) => named && !is_blank(display) && is_single_line(display),
                Err(e) => if !named {
                    e == "Project folder must contain only "@ + "letters, digits, '-' or '_'"@
                } else {
                    (is_blank(display) || !is_single_line(display)) && e
                        == "Project display name must be "@ + "non-empty and single-line"@
                },
            }
        }),
{
    reveal_strlit("Project folder must contain only ");
    reveal_strlit("letters, digits, '-' or '_'");
    reveal_strlit("Project folder must contain only letters, digits, '-' or '_'");
    reveal_strlit("Project display name must be ");
    reveal_strlit("non-empty and single-line");
    reveal_strlit("Project display name must be non-empty and single-line");
    assert("Project folder must contain only "@ + "letters, digits, '-' or '_'"@
        =~= "Project folder must contain only letters, digits, '-' or '_'"@);
    assert("Project display name must be "@ + "non-empty and single-line"@
        =~= "Project display name must be non-empty and single-line"@);
    assert forall|i: int| 0 <= i < folder.len() implies (crate::text::is_ascii_word(
        #[trigger] folder[i],
    ) <==> '0' <= folder[i] <= '9' || 'A' <= folder[i] <= 'Z' || 'a' <= folder[i] <= 'z') by {
        law_character_classes(folder[i]);
    }
    if is_folder_name(folder) {
        assert forall|i: int| 0 <= i < folder.len() implies {
            let c = #[trigger] folder[i];
            ||| '0' <= c <= '9'
            ||| 'A' <= c <= 'Z'
            ||| 'a' <= c <= 'z'
            ||| c == '_'
            ||| c == '-'
        } by {}
    } else if folder.len() > 0 {
        let i = choose|i: int|
            0 <= i < folder.len() && !(crate::text::is_ascii_word(#[trigger] folder[i])
                || folder[i] == '-' || folder[i] == '_');
        let c = folder[i];
        assert(!('0' <= c <= '9' || 'A' <= c <= 'Z' || 'a' <= c <= 'z' || c == '_' || c == '-'));
    }
}

/// A new project lies in its folder below the parent, with directories for scenes
/// and configuration and one for the Hub; its files are assets, a scene and an
/// input map, and at last a descriptor with the folder's name.
pub proof fn law_new_project_layout(parent: Seq<char>, folder: Seq<char>, display: Seq<char>)
    requires
        parent.len() > 0,
        new_project_of(parent, folder, display) is Ok,
    ensures
        ({
            let p = new_project_of(parent, folder, display)->Ok_0;
            let root = components(parent).push(folder);
            &&& components(p.root) == root
            &&& p.directories.len() == 3 && p.files.len() == 4
            &&& components(p.directories[0]) == root.push("Scenes"@)
            &&& components(p.directories[1]) == root.push("Config"@)
            &&& components(p.directories[2]) == root.push(".kairo"@)
            &&& components(p.files[0].path) == root.push("Assets.kassets"@)
            &&& components(p.files[1].path) == root.push("Scenes"@).push("Main.kscene"@)
            &&& components(p.files[2].path) == root.push("Config"@).push("Input.kinput"@)
            &&& components(p.files[3].path) == root.push(folder + ".kproject"@)
            &&& p.descriptor == p.files[3].path
            &&& p.files[0].contents == STARTER_ASSETS@
            &&& p.files[1].contents == EMPTY_SCENE@
            &&& p.files[2].contents == STARTER_INPUT_MAP@
        }),
{
    let p = new_project_of(parent, folder, display)->Ok_0;
    assert forall|i: int| 0 <= i < folder.len() implies folder[i] != '/' && folder[i] != '.' by {
        law_character_classes(folder[i]);
    }
    assert(folder != seq!['.']) by {
        assert(seq!['.'][0] == '.');
    }
    law_name_is_put_below(parent, folder);
    lemma_layout_names();
    let root = p.root;
    assert(root.len() > 0);
    law_name_is_put_below(root, "Scenes"@);
    law_name_is_put_below(root, "Config"@);
    law_name_is_put_below(root, ".kairo"@);
    law_name_is_put_below(root, "Assets.kassets"@);
    let scenes = join_of(root, "Scenes"@);
    let config = join_of(root, "Config"@);
    law_name_is_put_below(scenes, "Main.kscene"@);
    law_name_is_put_below(config, "Input.kinput"@);
    assert(join_of(scenes, "Main.kscene"@) =~= join_of(root, "Scenes/Main.kscene"@));
    assert(join_of(config, "Input.kinput"@) =~= join_of(root, "Config/Input.kinput"@));
    let name = folder + ".kproject"@;
    assert(!name.contains('/')) by {
        assert forall|i: int| 0 <= i < name.len() implies name[i] != '/' by {
            if i < folder.len() {
                assert(name[i] == folder[i]);
            } else {
                assert(name[i] == ".kproject"@[i - folder.len()]);
            }
        }
    }
    law_name_is_put_below(root, name);
}

proof fn lemma_layout_names()
    ensures
        !"Scenes"@.contains('/') && "Scenes"@.len() == 6 && "Scenes"@.last() == 's',
        !"Config"@.contains('/') && "Config"@.len() == 6 && "Config"@.last() == 'g',
        !".kairo"@.contains('/') && ".kairo"@.len() == 6,
        !"Assets.kassets"@.contains('/') && "Assets.kassets"@.len() == 14,
        !"Main.kscene"@.contains('/') && "Main.kscene"@.len() == 11 && "Main.kscene"@[0] == 'M',
        !"Input.kinput"@.contains('/') && "Input.kinput"@.len() == 12 && "Input.kinput"@[0] == 'I',
        "Scenes/Main.kscene"@ == "Scenes"@.push('/') + "Main.kscene"@,
        "Config/Input.kinput"@ == "Config"@.push('/') + "Input.kinput"@,
        ".kproject"@.len() == 9,
        forall|i: int| 0 <= i < 9 ==> #[trigger] ".kproject"@[i] != '/',
        "Scenes"@[0] == 'S' && "Config"@[0] == 'C',
{
    reveal_strlit("Scenes");
    reveal_strlit("Config");
    reveal_strlit(".kairo");
    reveal_strlit("Assets.kassets");
    reveal_strlit("Main.kscene");
    reveal_strlit("Input.kinput");
    reveal_strlit("Scenes/Main.kscene");
    reveal_strlit("Config/Input.kinput");
    reveal_strlit(".kproject");
    assert("Scenes/Main.kscene"@ =~= "Scenes"@.push('/') + "Main.kscene"@);
    assert("Config/Input.kinput"@ =~= "Config"@.push('/') + "Input.kinput"@);
}

/// A generated descriptor is ten lines: the header of format 2, what it was
/// generated for, and what every generated descriptor says.
pub proof fn law_generated_descriptor_text(g: Generated)
    ensures
        descriptor_file(g) == "kairo-project 2\n"@ + ("name "@ + quoted(g.name) + "\n"@) + (
        "engine-version "@ + quoted(g.engine_version) + "\n"@) + ("assets "@ + quoted(g.assets)
            + "\n"@) + ("startup-scene "@ + quoted(g.startup_scene) + "\n"@) + ("input-map "@
            + quoted(g.input_map) + "\n"@) + ("rendering-profile "@ + quoted("desktop"@) + "\n"@)
            + ("graphics-backend "@ + quoted("auto"@) + "\n"@) + ("build-profile "@ + quoted(
            "Development"@,
        ) + " development "@ + quoted("Build/Development"@) + "\n"@) + ("build-profile "@ + quoted(
            "Release"@,
        ) + " release "@ + quoted("Build/Release"@) + "\n"@),
{
    let rows = descriptor_rows(g);
    lemma_line_texts();
    lemma_header_text();
    lemma_rows_of(rows);
    lemma_value_line("name"@, "name "@, g.name);
    lemma_value_line("engine-version"@, "engine-version "@, g.engine_version);
    lemma_value_line("assets"@, "assets "@, g.assets);
    lemma_value_line("startup-scene"@, "startup-scene "@, g.startup_scene);
    lemma_value_line("input-map"@, "input-map "@, g.input_map);
    lemma_value_line("rendering-profile"@, "rendering-profile "@, "desktop"@);
    lemma_value_line("graphics-backend"@, "graphics-backend "@, "auto"@);
    lemma_profile_lines();
}

proof fn lemma_rows_of(rows: Seq<Seq<Word>>)
    requires
        rows.len() == 10,
    ensures
        statement_file(rows) == row(rows[0]).push('\n') + row(rows[1]).push('\n') + row(
            rows[2],
        ).push('\n') + row(rows[3]).push('\n') + row(rows[4]).push('\n') + row(rows[5]).push('\n')
            + row(rows[6]).push('\n') + row(rows[7]).push('\n') + row(rows[8]).push('\n') + row(
            rows[9],
        ).push('\n'),
{
    assert(rows.take(0) =~= Seq::<Seq<Word>>::empty());
    assert(statement_file(rows.take(0)) =~= Seq::<char>::empty());
    lemma_next_row(rows, 0);
    assert(Seq::<char>::empty() + row(rows[0]).push('\n') =~= row(rows[0]).push('\n'));
    lemma_next_row(rows, 1);
    lemma_next_row(rows, 2);
    lemma_next_row(rows, 3);
    lemma_next_row(rows, 4);
    lemma_next_row(rows, 5);
    lemma_next_row(rows, 6);
    lemma_next_row(rows, 7);
    lemma_next_row(rows, 8);
    lemma_next_row(rows, 9);
    assert(rows.take(10) =~= rows);
}

proof fn lemma_next_row(rows: Seq<Seq<Word>>, at: int)
    requires
        0 <= at < rows.len(),
    ensures
        statement_file(rows.take(at + 1)) == statement_file(rows.take(at)) + row(rows[at]).push(
            '\n',
        ),
{
    lemma_statement_file_push(rows.take(at), rows[at]);
    assert(rows.take(at + 1) =~= rows.take(at).push(rows[at]));
}

proof fn lemma_line_texts()
    ensures
        "\n"@ == seq!['\n'],
        "name "@ == "name"@.push(' '),
        "engine-version "@ == "engine-version"@.push(' '),
        "assets "@ == "assets"@.push(' '),
        "startup-scene "@ == "startup-scene"@.push(' '),
        "input-map "@ == "input-map"@.push(' '),
        "rendering-profile "@ == "rendering-profile"@.push(' '),
        "graphics-backend "@ == "graphics-backend"@.push(' '),
{
    reveal_strlit("\n");
    reveal_strlit("name ");
    reveal_strlit("name");
    reveal_strlit("engine-version ");
    reveal_strlit("engine-version");
    reveal_strlit("assets ");
    reveal_strlit("assets");
    reveal_strlit("startup-scene ");
    reveal_strlit("startup-scene");
    reveal_strlit("input-map ");
    reveal_strlit("input-map");
    reveal_strlit("rendering-profile ");
    reveal_strlit("rendering-profile");
    reveal_strlit("graphics-backend ");
    reveal_strlit("graphics-backend");
    assert("name "@ =~= "name"@.push(' '));
    assert("engine-version "@ =~= "engine-version"@.push(' '));
    assert("assets "@ =~= "assets"@.push(' '));
    assert("startup-scene "@ =~= "startup-scene"@.push(' '));
    assert("input-map "@ =~= "input-map"@.push(' '));
    assert("rendering-profile "@ =~= "rendering-profile"@.push(' '));
    assert("graphics-backend "@ =~= "graphics-backend"@.push(' '));
    assert("\n"@ =~= seq!['\n']);
}

proof fn lemma_value_line(keyword: Seq<char>, begin: Seq<char>, value: Seq<char>)
    requires
        begin == keyword.push(' '),
    ensures
        row(value_row(keyword, value)).push('\n') == begin + quoted(value) + "\n"@,
{
    lemma_line_texts();
    lemma_value_row_text(keyword, value);
    assert(row(value_row(keyword, value)).push('\n') =~= begin + quoted(value) + "\n"@);
}

proof fn lemma_header_text()
    ensures
        row(header_row()).push('\n') == "kairo-project 2\n"@,
{
    reveal_with_fuel(row, 3);
    reveal_strlit("kairo-project");
    reveal_strlit("2");
    reveal_strlit("kairo-project 2\n");
    let r = header_row();
    assert(r.drop_first() =~= seq![Word::Bare("2"@)]);
    assert(row(r).push('\n') =~= "kairo-project 2\n"@);
}

proof fn lemma_profile_lines()
    ensures
        row(profile_row(crate::descriptor::default_profiles()[0])).push('\n') == "build-profile "@
            + quoted("Development"@) + " development "@ + quoted("Build/Development"@) + "\n"@,
        row(profile_row(crate::descriptor::default_profiles()[1])).push('\n') == "build-profile "@
            + quoted("Release"@) + " release "@ + quoted("Build/Release"@) + "\n"@,
{
    lemma_line_texts();
    let a = crate::descriptor::default_profiles()[0];
    let b = crate::descriptor::default_profiles()[1];
    lemma_profile_row_text(a);
    lemma_profile_row_text(b);
    reveal_strlit("build-profile");
    reveal_strlit("build-profile ");
    reveal_strlit("development");
    reveal_strlit("release");
    reveal_strlit(" development ");
    reveal_strlit(" release ");
    assert("build-profile "@ =~= "build-profile"@.push(' '));
    assert(" development "@ =~= seq![' '] + "development"@.push(' '));
    assert(" release "@ =~= seq![' '] + "release"@.push(' '));
    assert(row(profile_row(a)).push('\n') =~= "build-profile "@ + quoted("Development"@)
        + " development "@ + quoted("Build/Development"@) + "\n"@);
    assert(row(profile_row(b)).push('\n') =~= "build-profile "@ + quoted("Release"@)
        + " release "@ + quoted("Build/Release"@) + "\n"@);
}

/// The descriptor of a new project reads back as a project of version 0.1.0 with
/// the trimmed display name and the files of the layout.
pub proof fn law_new_descriptor_reads_back(
    parent: Seq<char>,
    folder: Seq<char>,
    display: Seq<char>,
)
    requires
        new_project_of(parent, folder, display) is Ok,
        crate::text::byte_length(new_project_of(parent, folder, display)->Ok_0.files[3].contents)
            <= 1_048_576,
    ensures
        project_of(new_project_of(parent, folder, display)->Ok_0.files[3].contents) == Ok::<
            _,
            Seq<char>,
        >(
            DescriptorView {
                name: trimmed(display),
                asset_manifest: "Assets.kassets"@,
                startup_scene: "Scenes/Main.kscene"@,
                engine_version: "0.1.0"@,
                input_map: "Config/Input.kinput"@,
                rendering_profile: "desktop"@,
                graphics_backend: "auto"@,
                runtime_executable: None,
                enabled_plugins: seq![],
                build_profiles: seq![
                    ProfileView {
                        name: "Development"@,
                        kind: "development"@,
                        output_directory: "Build/Development"@,
                    },
                    ProfileView {
                        name: "Release"@,
                        kind: "release"@,
                        output_directory: "Build/Release"@,
                    },
                ],
            },
        ),
{
    crate::bootstrap::law_new_project_is_complete(parent, folder, display);
}

/// A repair looks after the three files that the descriptor names, each below the
/// descriptor's directory: it has an empty list of assets, an empty scene and the
/// starter's input map for them. A descriptor that is refused is not repaired.
pub proof fn law_repair_looks_after_three_files(path: Seq<char>, source: Seq<char>)
    ensures
        match project_of(source) {
            Err(e) => repair_files_of(path, source) == Err::<Seq<crate::bootstrap::FileView>, _>(e),
            Ok(d) => repair_files_of(path, source) matches Ok(files) && {
                let root = directory_of(path);
                &&& files.len() == 3
                &&& files[0].path == join_of(root, d.asset_manifest)
                &&& files[1].path == join_of(root, d.startup_scene)
                &&& files[2].path == join_of(root, d.input_map)
                &&& files[0].contents == "kairo-assets 1"@ + "\n"@
                &&& files[1].contents == "kairo-scene 1"@ + "\n"@
                &&& files[2].contents == STARTER_INPUT_MAP@
            },
        },
{
    law_starter_files();
}

} // verus!
