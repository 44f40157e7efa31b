use kairo_hub::health::ProjectHealth;
use kairo_hub::state::HubState;

#[test]
fn recent_projects_are_unique_and_bounded() {
    let mut state = HubState::default();
    for index in 0..30 {
        state.remember(format!("Project{index}.kproject"));
    }
    state.remember("Project12.kproject".to_string());
    assert_eq!(state.recent_projects.len(), 24);
    assert_eq!(state.recent_projects[0], "Project12.kproject");
    assert_eq!(state.recent_projects[1], "Project29.kproject");
    assert_eq!(state.recent_projects[23], "Project6.kproject");
    assert_eq!(
        state
            .recent_projects
            .iter()
            .filter(|p| *p == "Project12.kproject")
            .count(),
        1
    );
}

#[test]
fn engine_registration_is_unique_and_selected() {
    let mut state = HubState::default();
    state.register_engine("/engines/kairo-a".to_string());
    state.register_engine("/engines/kairo-b".to_string());
    state.register_engine("/engines/kairo-a".to_string());
    assert_eq!(state.engine_roots.len(), 2);
    assert_eq!(state.selected_engine, Some("/engines/kairo-a".to_string()));
    assert_eq!(state.engine_roots, vec!["/engines/kairo-a", "/engines/kairo-b"]);
}

#[test]
fn the_same_path_is_one_project() {
    let mut state = HubState::default();
    state.remember("/games/a//A.kproject".to_string());
    state.remember("/games/b/B.kproject".to_string());
    state.remember("/games/./a/A.kproject".to_string());
    assert_eq!(
        state.recent_projects,
        vec!["/games/./a/A.kproject", "/games/b/B.kproject"]
    );
}

#[test]
fn favorites_are_sorted_and_unique() {
    let mut state = HubState::default();
    for p in ["/b", "/a/z", "/a", "/b/"] {
        state.set_favorite(p.to_string(), true);
    }
    assert_eq!(state.favorites, vec!["/a", "/a/z", "/b"]);
    state.set_favorite("/a/".to_string(), false);
    state.set_favorite("/missing".to_string(), false);
    assert_eq!(state.favorites, vec!["/a/z", "/b"]);
    assert_eq!(state.clone().favorites, state.favorites);
}

#[test]
fn an_unreadable_project_is_not_remembered() {
    let mut state = HubState::default();
    let health = ProjectHealth {
        descriptor_path: "/a/A.kproject".to_string(),
        descriptor: None,
        errors: vec!["one".to_string(), "two".to_string()],
        warnings: vec![],
    };
    assert_eq!(state.remember_project(&health).unwrap_err(), "one; two");
    assert!(state.recent_projects.is_empty());
}
