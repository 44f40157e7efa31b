use kairo_hub::descriptor::{parse_project, MAX_PROJECT_BYTES};
use kairo_hub::generate::descriptor_text;
use kairo_hub::token::{quote, tokenize};

const V2: &str = "kairo-project 2\nname \"V2\"\nengine-version \"0.1.0\"\nassets \"Assets.kassets\"\nstartup-scene \"Scenes/Main.kscene\"\ninput-map \"Config/Input.kinput\"\nrendering-profile \"desktop\"\nbuild-profile \"Shipping\" release \"Artifacts/Shipping\"\n";

fn fault(source: &str) -> String {
    parse_project(source).unwrap_err()
}

#[test]
fn parser_rejects_unknown_and_escaping_paths() {
    assert!(parse_project(
        "kairo-project 1\nname \"Demo\"\nassets \"../bad\"\nstartup-scene \"Main.kscene\"\n"
    )
    .is_err());
    assert!(parse_project("kairo-project 1\nname \"Demo\"\nunknown \"x\"\n").is_err());
}

#[test]
fn project_v2_round_trips_runtime_and_build_metadata() {
    let descriptor = parse_project(
        "kairo-project 2\nname \"V2\"\nengine-version \"0.1.0\"\nassets \"Assets.kassets\"\nstartup-scene \"Scenes/Main.kscene\"\ninput-map \"Config/Input.kinput\"\nrendering-profile \"desktop\"\nplugin \"kairo.physics\"\nbuild-profile \"Shipping\" release \"Artifacts/Shipping\"\n",
    )
    .unwrap();
    assert_eq!(descriptor.enabled_plugins, vec!["kairo.physics"]);
    assert_eq!(descriptor.build_profiles[0].kind, "release");
    assert_eq!(descriptor.graphics_backend, "auto");

    let explicit = parse_project(
        "kairo-project 2\nname \"GL\"\nengine-version \"0.1.0\"\nassets \"Assets.kassets\"\nstartup-scene \"Scenes/Main.kscene\"\ninput-map \"Config/Input.kinput\"\nrendering-profile \"desktop\"\ngraphics-backend \"opengl\"\nbuild-profile \"Shipping\" release \"Artifacts/Shipping\"\n",
    )
    .unwrap();
    assert_eq!(explicit.graphics_backend, "opengl");
    assert!(parse_project(
        "kairo-project 2\nname \"Bad\"\nengine-version \"0.1.0\"\nassets \"Assets.kassets\"\nstartup-scene \"Scenes/Main.kscene\"\ninput-map \"Config/Input.kinput\"\nrendering-profile \"desktop\"\ngraphics-backend \"software\"\nbuild-profile \"Shipping\" release \"Artifacts/Shipping\"\n"
    ).is_err());
}

#[test]
fn project_v2_parses_optional_runtime_executable() {
    let descriptor = parse_project(
        "kairo-project 2\nname \"Custom Runtime\"\nengine-version \"0.1.0\"\nassets \"Assets.kassets\"\nstartup-scene \"Scenes/Main.kscene\"\ninput-map \"Config/Input.kinput\"\nrendering-profile \"desktop\"\ngraphics-backend \"auto\"\nruntime-executable \"Build/Development/Game\"\nbuild-profile \"Development\" development \"Build/Development\"\n"
    )
    .unwrap();
    assert_eq!(
        descriptor.runtime_executable,
        Some("Build/Development/Game".to_string())
    );
    assert!(parse_project(
        "kairo-project 2\nname \"Bad\"\nengine-version \"0.1.0\"\nassets \"Assets.kassets\"\nstartup-scene \"Scenes/Main.kscene\"\ninput-map \"Config/Input.kinput\"\nrendering-profile \"desktop\"\nruntime-executable \"../escape\"\nbuild-profile \"Development\" development \"Build/Development\"\n"
    )
    .is_err());
}

#[test]
fn format_one_has_the_defaults() {
    let d = parse_project(
        "# a comment\n\nkairo-project 1\nname \"Old\" # trailing\nassets A.kassets\nstartup-scene S.kscene\n",
    )
    .unwrap();
    assert_eq!(d.name, "Old");
    assert_eq!(d.asset_manifest, "A.kassets");
    assert_eq!(d.startup_scene, "S.kscene");
    assert_eq!(d.engine_version, "0.1.0");
    assert_eq!(d.input_map, "Config/Input.kinput");
    assert_eq!(d.rendering_profile, "desktop");
    assert_eq!(d.graphics_backend, "auto");
    assert_eq!(d.runtime_executable, None);
    assert!(d.enabled_plugins.is_empty());
    assert_eq!(d.build_profiles.len(), 2);
    assert_eq!(d.build_profiles[0].name, "Development");
    assert_eq!(d.build_profiles[0].kind, "development");
    assert_eq!(d.build_profiles[0].output_directory, "Build/Development");
    assert_eq!(d.build_profiles[1].name, "Release");
    assert_eq!(d.build_profiles[1].kind, "release");
    assert_eq!(d.build_profiles[1].output_directory, "Build/Release");
}

#[test]
fn every_descriptor_fault_has_its_message() {
    assert_eq!(fault(""), "1:1: missing kairo-project header");
    assert_eq!(
        fault("\nkairo-project 3\n"),
        "2:1: expected supported 'kairo-project 1|2' header"
    );
    assert_eq!(
        fault("kairo-project 1\nname \"A\"\nname \"B\"\n"),
        "3:1: duplicate or malformed 'name' statement"
    );
    assert_eq!(
        fault("kairo-project 1\nassets\n"),
        "2:1: duplicate or malformed 'assets' statement"
    );
    assert_eq!(
        fault("kairo-project 1\ninput-map \"x\"\n"),
        "2:1: malformed or version-incompatible 'input-map' statement"
    );
    assert_eq!(
        fault("kairo-project 1\nunknown \"x\"\n"),
        "2:1: unknown statement 'unknown'"
    );
    assert_eq!(
        fault("kairo-project 2\nname \"A\"\n"),
        "project format 2 requires engine-version, input-map, rendering-profile, and build-profile statements"
    );
    assert_eq!(fault("kairo-project 1\n"), "project requires a name statement");
    assert_eq!(
        fault("kairo-project 1\nname A\n"),
        "project requires an assets statement"
    );
    assert_eq!(
        fault("kairo-project 1\nname A\nassets B\n"),
        "project requires a startup-scene statement"
    );
    assert_eq!(
        fault("kairo-project 1\nname \" \"\nassets B\nstartup-scene C\n"),
        "project name must be non-empty and single-line"
    );
    assert_eq!(
        fault("kairo-project 1\nname \"a\\nb\"\nassets B\nstartup-scene C\n"),
        "project name must be non-empty and single-line"
    );
    assert_eq!(
        fault("kairo-project 1\nname A\nassets /B\nstartup-scene C\n"),
        "assets must be a non-empty project-relative path"
    );
    assert_eq!(
        fault("kairo-project 1\nname A\nassets B\nstartup-scene x/../../C\n"),
        "startup-scene cannot escape the project root"
    );
    assert_eq!(
        fault("kairo-project 1\nname A\nassets B//C\nstartup-scene B/./C\n"),
        "asset manifest and startup scene must be different"
    );
    assert_eq!(
        fault(&V2.replace("engine-version \"0.1.0\"", "engine-version \"\"")),
        "engine version and rendering profile must be non-empty"
    );
    assert_eq!(
        fault(&V2.replace("build-profile", "graphics-backend software\nbuild-profile")),
        "graphics backend must be auto, vulkan, metal, d3d12, or opengl"
    );
    assert_eq!(
        fault(&V2.replace(" release ", " nightly ")),
        "build profiles require a name and development or release kind"
    );
    assert_eq!(
        fault(&V2.replace("Artifacts/Shipping", "../Shipping")),
        "build profile output cannot escape the project root"
    );
    assert_eq!(
        fault(&format!("{V2}build-profile \"Shipping\" development \"B\"\n")),
        "build profile names must be unique"
    );
    assert_eq!(
        fault(&format!("{V2}plugin a\nplugin a\n")),
        "plugin identifiers must be non-empty and unique"
    );
    let long = "#".repeat(MAX_PROJECT_BYTES as usize + 1);
    assert_eq!(fault(&long), "project descriptor exceeds the 1 MiB safety limit");
    assert_eq!(fault(&long[1..]), "1:1: missing kairo-project header");
}

#[test]
fn tokens_are_split_quoted_and_unescaped() {
    assert_eq!(
        tokenize("  a \"b c\" d#e # f", 1).unwrap(),
        vec!["a", "b c", "d#e"]
    );
    assert_eq!(
        tokenize("\"\\\"\\\\\\n\" \"\"", 1).unwrap(),
        vec!["\"\\\n", ""]
    );
    assert_eq!(tokenize("\"a\"#b", 1).unwrap(), vec!["a"]);
    assert!(tokenize("", 1).unwrap().is_empty());
    assert!(tokenize("\u{3000} # only", 1).unwrap().is_empty());
    assert_eq!(
        tokenize("ab\"c\"", 7).unwrap_err(),
        "7:3: quote must begin a token"
    );
    assert_eq!(
        tokenize("\u{e9} \"a", 2).unwrap_err(),
        "2:4: unterminated quoted token"
    );
    assert_eq!(
        tokenize("\"a\\t\"", 1).unwrap_err(),
        "1:1: unsupported escape \\t"
    );
    assert_eq!(tokenize("x \"a\\", 1).unwrap_err(), "1:3: incomplete escape");
    assert_eq!(
        tokenize("\"a\"b", 1).unwrap_err(),
        "1:1: expected whitespace after quote"
    );
}

#[test]
fn quoted_values_are_read_back() {
    for value in ["plain", "with space", "a\"b", "back\\slash", "", "#", "\u{1f3ae}"] {
        let line = format!("name {}", quote(value));
        assert_eq!(tokenize(&line, 1).unwrap(), vec!["name", value]);
    }
    assert_eq!(quote("a\"\\"), "\"a\\\"\\\\\"");
}

#[test]
fn a_generated_descriptor_is_accepted() {
    let text = descriptor_text("My \"Game\"", "4.2.1", "A.kassets", "S/M.kscene", "I.kinput");
    assert_eq!(
        text,
        "kairo-project 2\nname \"My \\\"Game\\\"\"\nengine-version \"4.2.1\"\nassets \"A.kassets\"\nstartup-scene \"S/M.kscene\"\ninput-map \"I.kinput\"\nrendering-profile \"desktop\"\ngraphics-backend \"auto\"\nbuild-profile \"Development\" development \"Build/Development\"\nbuild-profile \"Release\" release \"Build/Release\"\n"
    );
    let d = parse_project(&text).unwrap();
    assert_eq!(d.name, "My \"Game\"");
    assert_eq!(d.engine_version, "4.2.1");
    assert_eq!(d.asset_manifest, "A.kassets");
    assert_eq!(d.startup_scene, "S/M.kscene");
    assert_eq!(d.input_map, "I.kinput");
    assert_eq!(d.build_profiles.len(), 2);
}

#[test]
fn descriptors_are_compared_by_what_their_paths_lead_to() {
    let d = parse_project(V2).unwrap();
    assert!(d == parse_project(&V2.replace("Scenes/Main.kscene", "Scenes//./Main.kscene")).unwrap());
    assert!(d == parse_project(&V2.replace("Artifacts/Shipping", "Artifacts/Shipping/")).unwrap());
    assert!(d != parse_project(&V2.replace("Scenes/Main.kscene", "Scenes/main.kscene")).unwrap());
    assert!(d != parse_project(&V2.replace("\"V2\"", "\"V3\"")).unwrap());
    assert!(d != parse_project(&format!("{V2}plugin a\n")).unwrap());
    assert!(d == d.clone());
    assert!(d.build_profiles[0] == d.build_profiles[0].clone());
}

#[test]
fn the_layout_of_a_descriptor_does_not_matter() {
    let plain = "kairo-project 2\nname \"V2\"\nengine-version \"0.1.0\"\nassets \"Assets.kassets\"\nstartup-scene \"Scenes/Main.kscene\"\ninput-map \"Config/Input.kinput\"\nrendering-profile \"desktop\"\nplugin \"b\"\nplugin \"a\"\nbuild-profile \"Shipping\" release \"Out/S\"\nbuild-profile \"Test\" development \"Out/T\"\n";
    let expected = parse_project(plain).unwrap();
    let lines: Vec<&str> = plain.lines().collect();

    // Blank lines and comments, before the header too.
    let spaced = lines.join("\n \t\n# comment \"\n   # indented\n");
    let spaced = format!("\n# first\n{spaced}\n\n# last");
    assert_eq!(parse_project(&spaced).unwrap(), expected);

    // Line ends.
    assert_eq!(parse_project(&plain.replace('\n', "\r\n")).unwrap(), expected);
    assert_eq!(parse_project(plain.trim_end()).unwrap(), expected);
    assert_eq!(parse_project(&format!("{plain}\n")).unwrap(), expected);

    // Any order behind the header in which plugins and profiles keep theirs.
    for order in [
        [0, 6, 5, 4, 3, 2, 1, 7, 8, 9, 10],
        [0, 7, 9, 1, 8, 2, 10, 3, 4, 5, 6],
        [0, 9, 10, 7, 8, 6, 4, 2, 1, 3, 5],
    ] {
        let moved: Vec<&str> = order.iter().map(|&i| lines[i]).collect();
        assert_eq!(parse_project(&moved.join("\n")).unwrap(), expected);
    }
    let backwards: Vec<&str> = [0, 10, 9, 8, 7, 6, 5, 4, 3, 2, 1].iter().map(|&i| lines[i]).collect();
    let turned = parse_project(&backwards.join("\n")).unwrap();
    assert_eq!(turned.enabled_plugins, vec!["a", "b"]);
    assert_eq!(turned.build_profiles[0].name, "Test");
    assert_eq!(turned.name, expected.name);

    // The header stays first, and a single statement stands once.
    let mut late: Vec<&str> = lines.clone();
    late.swap(0, 1);
    assert_eq!(
        fault(&late.join("\n")),
        "1:1: expected supported 'kairo-project 1|2' header"
    );
    assert_eq!(
        fault(&format!("{plain}name \"V2\"\n")),
        "12:1: duplicate or malformed 'name' statement"
    );
}
