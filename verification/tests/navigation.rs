use toolbox_core::app_state::{App, Focus};
use toolbox_core::config::{load_config, Config};
use toolbox_core::descriptor::Module;
use toolbox_core::order::{str_eq, str_le};
use toolbox_core::runner::{CommandRunner, NoopRunner};
use toolbox_core::Error;

fn module(id: &str, name: &str, category: &str, actions: Vec<(&str, &str)>) -> Module {
    Module {
        id: id.to_string(),
        name: name.to_string(),
        description: String::new(),
        category: category.to_string(),
        script_kind: "bash".to_string(),
        enabled: true,
        root: format!("modules/{}", id),
        actions: actions
            .into_iter()
            .map(|(n, c)| (n.to_string(), c.to_string()))
            .collect(),
    }
}

#[test]
fn empty_scan_synthesizes_one_example() {
    let app = App::new(vec![], "modules".to_string());
    assert_eq!(app.categories().len(), 1);
    assert_eq!(app.categories()[0], "Examples");
    let mods = app.current_modules();
    assert_eq!(mods.len(), 1);
    assert_eq!(mods[0].id, "example-module");
    assert_eq!(app.current_actions().len(), 1);
}

#[test]
fn categories_are_sorted() {
    let app = App::new(
        vec![module("b1", "BMod", "B", vec![]), module("a1", "AMod", "A", vec![])],
        "modules".to_string(),
    );
    let cats: Vec<String> = app.categories().clone();
    assert_eq!(cats, vec!["A".to_string(), "B".to_string()]);
}

#[test]
fn category_count_matches_distinct_labels() {
    let app = App::new(
        vec![
            module("a1", "One", "X", vec![]),
            module("a2", "Two", "Y", vec![]),
            module("a3", "Three", "X", vec![]),
        ],
        "modules".to_string(),
    );
    assert_eq!(app.categories().len(), 2);
    let total: usize = (0..app.categories().len())
        .map(|c| app.catalog.buckets[c].len())
        .sum();
    assert_eq!(total, 3);
    for (c, bucket) in app.catalog.buckets.iter().enumerate() {
        for m in bucket {
            assert_eq!(m.category, app.catalog.categories[c]);
        }
    }
}

#[test]
fn modules_sorted_by_name_then_id() {
    let app = App::new(
        vec![
            module("z", "Beta", "C", vec![]),
            module("b", "Alpha", "C", vec![]),
            module("a", "Beta", "C", vec![]),
        ],
        "modules".to_string(),
    );
    let mods = app.current_modules();
    let names: Vec<&str> = mods.iter().map(|m| m.name.as_str()).collect();
    assert_eq!(names, vec!["Alpha", "Beta", "Beta"]);
    assert_eq!(mods[1].id, "a");
    assert_eq!(mods[2].id, "z");
}

#[test]
fn actions_are_presented_sorted() {
    let app = App::new(
        vec![module("m", "M", "C", vec![("run", "r"), ("build", "b"), ("check", "c")])],
        "modules".to_string(),
    );
    let actions = app.current_actions();
    let names: Vec<&str> = actions.iter().map(|(n, _)| n.as_str()).collect();
    assert_eq!(names, vec!["build", "check", "run"]);
}

#[test]
fn move_up_at_zero_is_a_no_op() {
    let mut app = App::new(
        vec![module("a", "A", "X", vec![("r", "c")]), module("b", "B", "Y", vec![])],
        "modules".to_string(),
    );
    app.move_up();
    assert_eq!(app.category_index(), 0);
    assert_eq!(app.module_index(), 0);
    assert_eq!(app.action_index(), 0);
    app.focus_next();
    app.move_up();
    assert_eq!(app.module_index(), 0);
    app.focus_next();
    app.move_up();
    assert_eq!(app.action_index(), 0);
}

#[test]
fn move_down_at_last_is_a_no_op() {
    let mut app = App::new(
        vec![module("a", "A", "X", vec![]), module("b", "B", "Y", vec![])],
        "modules".to_string(),
    );
    app.move_down();
    assert_eq!(app.category_index(), 1);
    app.move_down();
    assert_eq!(app.category_index(), 1);
}

#[test]
fn changing_category_resets_lower_indices() {
    let mut app = App::new(
        vec![
            module("a1", "A1", "X", vec![("x", "1"), ("y", "2")]),
            module("a2", "A2", "X", vec![]),
            module("b1", "B1", "Y", vec![]),
        ],
        "modules".to_string(),
    );
    app.focus_next();
    app.move_down();
    assert_eq!(app.module_index(), 1);
    app.focus_prev();
    app.move_down();
    assert_eq!(app.category_index(), 1);
    assert_eq!(app.module_index(), 0);
    assert_eq!(app.action_index(), 0);
}

#[test]
fn changing_module_resets_action_index() {
    let mut app = App::new(
        vec![
            module("a1", "A1", "X", vec![("x", "1"), ("y", "2")]),
            module("a2", "A2", "X", vec![("z", "3")]),
        ],
        "modules".to_string(),
    );
    app.focus_next();
    app.focus_next();
    app.move_down();
    assert_eq!(app.action_index(), 1);
    app.focus_prev();
    app.move_down();
    assert_eq!(app.module_index(), 1);
    assert_eq!(app.action_index(), 0);
}

#[test]
fn indices_stay_in_bounds_under_any_walk() {
    let mut app = App::new(
        vec![
            module("a1", "A1", "X", vec![("x", "1")]),
            module("b1", "B1", "Y", vec![]),
            module("b2", "B2", "Y", vec![("p", "1"), ("q", "2")]),
        ],
        "modules".to_string(),
    );
    for step in 0..200usize {
        match step % 6 {
            0 => app.move_down(),
            1 => app.focus_next(),
            2 => app.move_down(),
            3 => app.move_up(),
            4 => app.focus_prev(),
            _ => app.move_up(),
        }
        assert!(app.category_index() < app.categories().len());
        let mods = app.current_modules();
        assert!(app.module_index() < mods.len());
        let actions = app.current_actions();
        assert!(app.action_index() == 0 || app.action_index() < actions.len());
    }
}

#[test]
fn focus_cycles_forward_and_backward() {
    let mut app = App::new(
        vec![module("a", "A", "X", vec![("r", "c")])],
        "modules".to_string(),
    );
    assert_eq!(app.focus(), Focus::Categories);
    app.focus_next();
    assert_eq!(app.focus(), Focus::Modules);
    app.focus_next();
    assert_eq!(app.focus(), Focus::Actions);
    app.focus_next();
    assert_eq!(app.focus(), Focus::Categories);
    app.focus_prev();
    assert_eq!(app.focus(), Focus::Actions);
    app.focus_prev();
    assert_eq!(app.focus(), Focus::Modules);
    app.focus_prev();
    assert_eq!(app.focus(), Focus::Categories);
}

#[test]
fn focus_skips_actions_when_module_has_none() {
    let mut app = App::new(vec![module("a", "A", "X", vec![])], "modules".to_string());
    app.focus_next();
    assert_eq!(app.focus(), Focus::Modules);
    app.focus_next();
    assert_eq!(app.focus(), Focus::Categories);
}

#[test]
fn activate_yields_the_selected_pair() {
    let mut app = App::new(
        vec![module("m1", "Alpha", "Cat", vec![("Run", "echo hi")])],
        "modules".to_string(),
    );
    app.focus_next();
    app.focus_next();
    assert_eq!(app.focus(), Focus::Actions);
    let picked = app.activate();
    assert_eq!(picked, Some(("Run".to_string(), "echo hi".to_string())));
    assert_eq!(app.category_index(), 0);
    assert_eq!(app.module_index(), 0);
    assert_eq!(app.action_index(), 0);
    assert!(app.status().contains("echo hi"));
}

#[test]
fn activate_off_the_action_panel_only_instructs() {
    let mut app = App::new(
        vec![module("m1", "Alpha", "Cat", vec![("Run", "echo hi")])],
        "modules".to_string(),
    );
    let picked = app.activate();
    assert!(picked.is_none());
    assert_eq!(app.status(), "Select an action and press Enter to run it.");
}

#[test]
fn activate_reports_missing_actions() {
    let mut app = App::new(vec![module("m1", "Alpha", "Cat", vec![])], "modules".to_string());
    app.focus_next();
    app.focus_prev();
    app.focus_prev();
    assert_eq!(app.focus(), Focus::Actions);
    let picked = app.activate();
    assert!(picked.is_none());
    assert_eq!(app.status(), "No actions available for this module.");
}

#[test]
fn new_app_reports_ready() {
    let app = App::new(vec![], "modules".to_string());
    assert_eq!(app.status(), "Ready. Use Tab to switch panels.");
    assert_eq!(app.modules_root(), "modules");
    assert_eq!(app.current_category_name(), Some("Examples"));
}

#[test]
fn string_order_is_lexicographic() {
    assert!(str_le("alpha", "beta"));
    assert!(!str_le("beta", "alpha"));
    assert!(str_le("abc", "abc"));
    assert!(str_le("ab", "abc"));
    assert!(str_eq("same", "same"));
    assert!(!str_eq("same", "Same"));
}

#[test]
fn load_config_is_still_a_placeholder() {
    match load_config("config/example_config.toml") {
        Err(Error::Unimplemented) => {},
        _ => panic!("expected Unimplemented"),
    }
    let cfg = Config::default();
    assert!(cfg.auto_execute.is_empty());
    assert!(!cfg.skip_confirmation);
    assert!(!cfg.size_bypass);
}

#[test]
fn noop_runner_runs_nothing() {
    let runner = NoopRunner::new();
    match runner.run("echo hi") {
        Err(Error::Unimplemented) => {},
        _ => panic!("expected Unimplemented"),
    }
}
