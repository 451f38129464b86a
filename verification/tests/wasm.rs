use desktopinator::plugins::manifest::RawPluginManifest;
use desktopinator::plugins::wasm::{
    answer_of, event_failures, gather, missing_function, query_layouts, question_name,
    PlacementJson, Question, WasmLayout, WasmPlugin, WasmRuntime,
};
use desktopinator::tiling::{Rect, WindowId};

fn manifest(id: &str) -> RawPluginManifest {
    RawPluginManifest {
        id: id.to_string(),
        name: format!("Plugin {id}"),
        version: "1.0".to_string(),
        capabilities: vec![],
        hooks: vec![],
    }
}

fn texts(list: &[&str]) -> Vec<String> {
    list.iter().map(|s| s.to_string()).collect()
}

fn plugin(id: &str, layouts: &[&str]) -> WasmPlugin {
    let wasm_path = format!("{id}.wasm");
    WasmPlugin { manifest: manifest(id), layouts: texts(layouts), wasm_path }
}

#[test]
fn plugins_that_cannot_start_are_refused() {
    let mut runtime = WasmRuntime::new();
    let error = runtime.load_single_plugin(manifest("x"), b"no module", String::new()).unwrap_err();
    assert!(error.starts_with("failed to create WASM plugin: "));
    assert!(runtime.plugins.is_empty());
}

#[test]
fn layouts_come_from_the_first_plugin_that_has_them() {
    let mut runtime = WasmRuntime::new();
    runtime.plugins = vec![plugin("a", &["grid", "rows"]), plugin("b", &["rows", "pile"])];
    assert_eq!(runtime.layout_names(), vec!["grid", "rows", "rows", "pile"]);
    let rows = runtime.create_layout("rows").unwrap();
    assert_eq!((rows.plugin, rows.name()), (0, "rows"));
    assert_eq!(runtime.create_layout("pile").unwrap().plugin, 1);
    assert!(runtime.create_layout("none").is_none());
    let info = runtime.plugin_info();
    assert_eq!((info[1].id.as_str(), info[1].source.as_str()), ("b", "b.wasm"));
    assert_eq!(info[1].layouts, vec!["rows", "pile"]);
}

#[test]
fn answers_of_all_plugins_are_gathered() {
    assert_eq!(gather(vec![Some(vec![1, 2]), None, Some(vec![]), Some(vec![3])]), vec![1, 2, 3]);
    assert_eq!(question_name(Question::Keybindings), "get_keybindings");
    assert_eq!(question_name(Question::WindowRules), "get_window_rules");
    assert_eq!(question_name(Question::Actions), "get_actions");
}

#[test]
fn without_plugins_nobody_answers() {
    let mut runtime = WasmRuntime::new();
    assert!(runtime.ask_all(Question::Actions).is_empty());
    assert!(runtime.on_event("{}").is_empty());
    assert_eq!(runtime.invoke_callback("id"), None);
    runtime.clear();
    assert!(runtime.plugins.is_empty());
}

#[test]
fn missing_event_handlers_are_no_failure() {
    assert!(missing_function("Function not found: on_event"));
    assert!(missing_function("it does not exist"));
    assert!(!missing_function("out of memory"));
}

#[test]
fn layout_lists_are_json() {
    assert_eq!(query_layouts(&Some("[\"a\", \"b\"]".to_string())), vec!["a", "b"]);
    assert!(query_layouts(&Some("{}".to_string())).is_empty());
    assert!(query_layouts(&None).is_empty());
}

#[test]
fn wasm_layouts_ask_and_place() {
    let layout = WasmLayout { plugin: 0, layout_name: "grid".to_string() };
    let area = Rect { x: 1, y: 2, width: 3, height: 4 };
    let request = layout.request(&[WindowId(7), WindowId(9)], area);
    assert_eq!((request.layout.as_str(), request.area), ("grid", area));
    assert_eq!(request.windows, vec![7, 9]);
    let place = PlacementJson { id: 9, x: 1, y: 2, width: 3, height: 4 };
    let placed = layout.arrange(Some(vec![place]));
    assert_eq!((placed[0].id, placed[0].rect), (WindowId(9), area));
    assert!(layout.arrange(None).is_empty());
}

#[test]
fn failures_are_told_by_place() {
    let answers = [
        Err("out of memory".to_string()),
        Ok("{}".to_string()),
        Err("Function not found: on_event".to_string()),
        Err("trap".to_string()),
    ];
    let failures = event_failures(&answers);
    assert_eq!(failures, vec![(0, "out of memory".to_string()), (3, "trap".to_string())]);
    assert!(event_failures(&[]).is_empty());
    assert_eq!(answer_of(Ok("x".to_string())), Some("x".to_string()));
    assert_eq!(answer_of(Err("x".to_string())), None);
}
