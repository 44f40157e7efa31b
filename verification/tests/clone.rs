use kairo_hub::clone::{
    check_clone, check_clone_destination, choose_descriptor, clone_external_gltf_project,
    clone_project, conclude_clone, validate_clone_folder, validate_clone_repository,
};
use kairo_hub::process::ProcessStatus;

const GAME: &str = "https://github.com/owner/game.git";

fn fault(repository: &str) -> String {
    validate_clone_repository(repository).unwrap_err()
}

fn ended(success: bool) -> Result<ProcessStatus, String> {
    Ok(ProcessStatus {
        success,
        text: "exit status: 128".to_string(),
    })
}

#[test]
fn clone_inputs_reject_option_and_untrusted_transport_injection() {
    assert!(validate_clone_repository("--upload-pack=bad").is_err());
    assert!(validate_clone_repository("git@github.com:owner/game.git").is_err());
    assert!(validate_clone_repository("http://github.com/owner/game.git").is_err());
    assert!(validate_clone_repository("https://example.com/owner/game").is_err());
    assert!(validate_clone_repository("https://example.com/owner/game.git").is_err());
    assert!(validate_clone_repository("https://github.com/owner/game").is_err());
    assert!(validate_clone_repository("https://github.com/../game.git").is_err());
    assert!(validate_clone_repository("https://github.com/-owner/game.git").is_err());
    assert!(validate_clone_repository("https://github.com/owner/game.git?x=1").is_err());
    assert!(validate_clone_repository("https://github.com/owner/game.git#fragment").is_err());
    assert!(validate_clone_repository("https://github.com/game.git").is_err());
    assert!(validate_clone_repository("https://github.com/owner/%2e%2e/game.git").is_err());
    assert!(validate_clone_repository("https://github.com/owner/game.git").is_ok());
    assert!(validate_clone_repository("https://gitlab.com/group/subgroup/game.git").is_ok());
    assert!(clone_project("https://github.com/owner/game.git", "/tmp", "../bad").is_err());
}

#[test]
fn every_repository_fault_has_its_message() {
    let malformed = "Repository URL is malformed";
    assert_eq!(fault(""), malformed);
    assert_eq!(fault("https://github.com/o/g .git"), malformed);
    assert_eq!(fault("https://github.com/o/g\u{85}.git"), malformed);
    assert_eq!(fault("https://github.com/o/g.git?x"), malformed);
    assert_eq!(fault("https://github.com/o/g.git#x"), malformed);
    let long = format!("https://github.com/o/{}.git", "a".repeat(2023));
    assert_eq!(long.len(), 2048);
    assert!(validate_clone_repository(&long).is_ok());
    assert_eq!(fault(&long.replace("/o/", "/oo/")), malformed);
    assert_eq!(
        fault("https://example.com/o/g.git"),
        "Repository must use HTTPS on github.com or gitlab.com"
    );
    assert_eq!(
        fault("https://github.com/o/g"),
        "Repository URL must end in .git"
    );
    for path in ["game.git", "/o/g.git", "o//g.git", "o/./g.git", "o/../g.git", "-o/g.git", "o/.git", "o/g%.git", "o/\u{e9}.git"] {
        assert_eq!(
            fault(&format!("https://github.com/{path}")),
            "Repository URL has an invalid owner/project path",
            "{path}"
        );
    }
}

#[test]
fn clone_folders_are_checked() {
    for good in ["a", "A-b_c.9", "...", ".a"] {
        assert!(validate_clone_folder(good).is_ok(), "{good}");
    }
    for bad in ["", ".", "..", "a/b", "a b", "\u{e9}"] {
        assert_eq!(
            validate_clone_folder(bad).unwrap_err(),
            "Clone folder must contain only letters, digits, '-', '_' or '.'",
            "{bad}"
        );
    }
}

#[test]
fn a_clone_is_called_without_a_shell_or_a_prompt() {
    let plan = clone_project(GAME, "/home/games", "game").unwrap();
    assert_eq!(plan.destination, "/home/games/game");
    assert_eq!(plan.command.program, "git");
    assert_eq!(
        plan.command.arguments,
        vec!["clone", "--depth", "1", "--", GAME, "/home/games/game"]
    );
    assert_eq!(
        plan.command.environment,
        Some(("GIT_TERMINAL_PROMPT".to_string(), "0".to_string()))
    );
    assert_eq!(plan.command.directory, None);
    assert!(check_clone_destination(&plan, false).is_ok());
    assert_eq!(
        check_clone_destination(&plan, true).unwrap_err(),
        "Clone destination already exists: /home/games/game"
    );
    let external =
        clone_external_gltf_project(GAME, "/x", "scene", Some("a.glb".to_string()), "1.0").unwrap();
    assert_eq!(external.clone.destination, "/x/scene");
    assert_eq!(external.display_name, "scene");
    assert_eq!(external.engine_version, "1.0");
    assert_eq!(external.entry_scene, Some("a.glb".to_string()));
    assert!(clone_external_gltf_project("x", "/x", "scene", None, "1.0").is_err());
}

#[test]
fn exactly_one_descriptor_is_accepted() {
    let list = |n: usize| -> Result<Vec<String>, String> {
        Ok((0..n).map(|i| format!("{i}.kproject")).collect())
    };
    assert_eq!(choose_descriptor(&list(1)).unwrap(), "0.kproject");
    assert_eq!(
        choose_descriptor(&list(0)).unwrap_err(),
        "Cloned repository contains no .kproject descriptor"
    );
    assert_eq!(
        choose_descriptor(&list(12)).unwrap_err(),
        "Cloned repository contains 12 .kproject descriptors; select one through local import instead"
    );
    assert_eq!(choose_descriptor(&Err("gone".to_string())).unwrap_err(), "gone");
}

#[test]
fn an_invalid_clone_is_removed() {
    let plan = || clone_project(GAME, "/g", "x").unwrap();
    assert!(check_clone(&ended(true)).is_ok());
    let done = conclude_clone(plan(), &ended(true), Ok("/g/x/a.kproject".to_string()));
    assert_eq!(done.result.unwrap(), "/g/x/a.kproject");
    assert_eq!(done.remove, None);

    let invalid = conclude_clone(plan(), &ended(true), Err("invalid".to_string()));
    assert_eq!(invalid.result.unwrap_err(), "invalid");
    assert_eq!(invalid.remove, Some("/g/x".to_string()));

    let failed = conclude_clone(plan(), &ended(false), Ok("unused".to_string()));
    assert_eq!(
        failed.result.unwrap_err(),
        "git clone failed with status exit status: 128"
    );
    assert_eq!(failed.remove, Some("/g/x".to_string()));

    let unstarted = conclude_clone(plan(), &Err("no git".to_string()), Ok("unused".to_string()));
    assert_eq!(
        unstarted.result.unwrap_err(),
        "Cannot start git clone: no git"
    );
    assert_eq!(unstarted.remove, None);
}
