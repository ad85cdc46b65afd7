use asf_kai::config::Config;
use asf_kai::renderer::KaiRenderer;
use asf_kai::resize::resize_targets;
use asf_kai::ui_state::{quick_transition_target, UiState};

#[test]
fn config_defaults_to_no_vsync() {
    assert_eq!(Config::default(), Config { vsync: false });
}

#[test]
fn config_lives_under_home_when_set() {
    let p = Config::config_path(Some("/home/kai".to_string()), Some("C:\\Users\\kai".to_string()));
    assert_eq!(p, vec!["/home/kai", ".config", "AsfKai", "config.ron"]);
}

#[test]
fn config_falls_back_to_the_user_profile() {
    let p = Config::config_path(None, Some("C:\\Users\\kai".to_string()));
    assert_eq!(p, vec!["C:\\Users\\kai", "AppData", "Roaming", "AsfKai", "config.ron"]);
}

#[test]
fn config_falls_back_to_the_working_directory() {
    assert_eq!(Config::config_path(None, None), vec!["config.ron"]);
}

#[test]
fn ui_state_defaults() {
    let s = UiState::default();
    assert!(!s.render_triangle);
    assert!(s.render_model && s.render_static_meshlets && s.render_animated_meshlets);
    assert!(s.spawner_selected_mesh.is_empty() && s.spawner_selected_texture.is_empty());
}

#[test]
fn quick_transition_buttons() {
    let available: Vec<String> = ["idle", "walk", "run", "jump"].iter().map(|s| s.to_string()).collect();
    let current = "walk".to_string();
    assert_eq!(quick_transition_target(&available, 0, &current), Some("idle".to_string()));
    assert_eq!(quick_transition_target(&available, 1, &current), None);
    assert_eq!(quick_transition_target(&available, 2, &current), Some("run".to_string()));
    assert_eq!(quick_transition_target(&available, 3, &current), None);
    assert_eq!(quick_transition_target(&Vec::new(), 0, &current), None);
}

#[test]
fn resizes_stop_at_the_first_empty_size() {
    assert_eq!(resize_targets(&vec![(800, 600), (1024, 768), (0, 768), (640, 480)]), vec![(800, 600), (1024, 768)]);
    assert_eq!(resize_targets(&vec![(10, 0)]), vec![]);
    assert_eq!(resize_targets(&vec![]), vec![]);
}

#[test]
fn renderer_renders_without_state() {
    let mut r = KaiRenderer::new();
    r.render();
    assert_eq!(r, KaiRenderer::new());
}

#[test]
fn counter_counts_frames() {
    let mut c = asf_kai::counter::Counter::default();
    asf_kai::counter::increment_counter(&mut c);
    asf_kai::counter::increment_counter(&mut c);
    assert_eq!(c, asf_kai::counter::Counter(2));
}
