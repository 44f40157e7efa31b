use kairo_hub::engine::{
    discover_editor, editor_candidates, engine_candidates, engine_executable, inspect_engine,
};

fn version(source: &str) -> String {
    inspect_engine("/e", &Ok(source.to_string()), "", &vec![])
        .unwrap()
        .version
}

#[test]
fn the_version_is_the_first_word_behind_the_keyword() {
    assert_eq!(version("project(KairoGameEngine VERSION 4.2.1 LANGUAGES CXX)\n"), "4.2.1");
    assert_eq!(version("project(KairoGameEngine VERSION 4.2.1))\n"), "4.2.1");
    assert_eq!(version("project(KairoGameEngine\n VERSION 1)\n"), "development");
    assert_eq!(version("project(KairoGameEngine VERSION)"), "");
    assert_eq!(version("project(KairoGameEngine VERSION  \n"), "development");
    assert_eq!(version("project(KairoGameEngine VERSION 1VERSION2)"), "1");
    assert_eq!(version("VERSION 7 project(KairoGameEngine VERSION 8)"), "7");
    assert_eq!(
        version("# project(KairoGameEngine\nproject(KairoGameEngine VERSION\u{3000}2.0)\n"),
        "2.0"
    );
}

#[test]
fn an_engine_needs_its_manifest() {
    assert_eq!(
        inspect_engine("/e", &Ok("project(Other)".to_string()), "", &vec![]).unwrap_err(),
        "Selected directory is not a KairoGameEngine umbrella checkout"
    );
    assert_eq!(
        inspect_engine("/e", &Err("gone".to_string()), "", &vec![]).unwrap_err(),
        "Cannot read engine manifest /e/CMakeLists.txt: gone"
    );
}

#[test]
fn tools_are_taken_from_the_first_place_that_exists() {
    let all = engine_candidates("/e", ".exe");
    assert_eq!(all.len(), 17);
    assert_eq!(
        all[0],
        "/e/build/dev-clang/components/KairoEditor/KairoEditorApp.exe"
    );
    assert_eq!(all[6], "/e/KairoEditor/build/KairoEditorApp.exe");
    assert_eq!(all[7], "/e/build/dev-clang/Runtime/KairoPlayer/KairoPlayer.exe");
    assert_eq!(all[16], "/e/KairoEditor/build/KairoProjectCompiler.exe");
    let source = Ok("project(KairoGameEngine VERSION 1)".to_string());
    let existing = vec![all[6].clone(), all[2].clone(), all[16].clone()];
    let engine = inspect_engine("/e", &source, ".exe", &existing).unwrap();
    assert_eq!(engine.editor, all[2]);
    assert!(engine.editor_available);
    assert_eq!(engine.project_compiler, all[16]);
    assert!(engine.project_compiler_available);
    assert_eq!(engine.player, all[7]);
    assert!(!engine.player_available);
    assert_eq!(engine.clone().editor, engine.editor);
    let names = vec!["a".to_string(), "b".to_string()];
    assert_eq!(
        engine_executable("/e", &names, "", &vec!["/e/b".to_string()]),
        "/e/b"
    );
    assert_eq!(engine_executable("/e", &names, "", &vec![]), "/e/a");
}

#[test]
fn the_editor_is_discovered_in_order() {
    let some = |s: &str| Some(s.to_string());
    let all = editor_candidates(&some("/x/Editor"), &some("/engine"), &some("/work"));
    assert_eq!(
        all,
        vec![
            "/x/Editor",
            "/engine/KairoEditor/build/KairoEditorApp",
            "/work/KairoEditor/build/KairoEditorApp",
            "/work/../KairoEditor/build/KairoEditorApp",
        ]
    );
    assert_eq!(
        discover_editor(&all, &vec![all[3].clone(), all[1].clone()]).unwrap(),
        all[1]
    );
    assert!(editor_candidates(&None, &None, &None).is_empty());
    assert_eq!(
        discover_editor(&all, &vec![]).unwrap_err(),
        "KairoEditor executable was not found. Set KAIRO_EDITOR_EXECUTABLE or KAIRO_ENGINE_ROOT."
    );
}
