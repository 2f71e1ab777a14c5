//! Tests of the plugin boundary and the plugin host.
use nanoss::plugins::{
    fuel_per_call, host_log_line, is_component_candidate, json_string, memory_limit_bytes,
    name_of_plugin, plugin_event_line, validate_paths, BuildEvent, Hook, Lifecycle,
    PluginApiVersion, PluginBoundary, PluginBoundaryError, PluginHost, PluginHostConfig,
    PluginPageIrV1,
};

fn host() -> PluginHost {
    let config = PluginHostConfig {
        plugin_paths: vec!["p/one.wasm".to_string(), "two.wasm".to_string()],
        timeout_ms: 2_000,
        memory_limit_mb: 128,
    };
    PluginHost::new(config, &vec![true, true]).unwrap()
}

#[test]
fn v1_to_v2_keeps_content() {
    let ir = PluginPageIrV1 {
        title: "Title".to_string(),
        content_html: "<main/>".to_string(),
        toc_html: "<nav/>".to_string(),
    };
    let v2 = PluginBoundary::v1_to_v2("/index", &ir);
    assert_eq!(v2.path, "/index");
    assert_eq!(v2.title, ir.title);
    assert_eq!(v2.content_html, ir.content_html);
    assert_eq!(v2.toc_html, ir.toc_html);
}

#[test]
fn v1_roundtrip_works() {
    let ir = PluginPageIrV1 {
        title: "T".to_string(),
        content_html: "<p>x</p>".to_string(),
        toc_html: "<ul></ul>".to_string(),
    };
    let json = PluginBoundary::serialize_v1(&ir);
    let restored: serde_json::Value = serde_json::from_str(&json).expect("deserialize");
    assert_eq!(restored["title"], "T");
    assert_eq!(restored["content_html"], "<p>x</p>");
    assert_eq!(restored["toc_html"], "<ul></ul>");
    assert_eq!(restored.as_object().unwrap().len(), 3);
}

#[test]
fn v1_payload_escapes_its_texts() {
    let ir = PluginPageIrV1 {
        title: "say \"hi\"".to_string(),
        content_html: "a\\b\nc".to_string(),
        toc_html: String::new(),
    };
    assert_eq!(
        PluginBoundary::serialize_v1(&ir),
        "{\"title\":\"say \\\"hi\\\"\",\"content_html\":\"a\\\\b\\nc\",\"toc_html\":\"\"}"
    );
    let ir = PluginPageIrV1 {
        title: "\u{8}\t\u{c}\r".to_string(),
        content_html: "\u{1}\u{1f}\u{7f}".to_string(),
        toc_html: "ä/".to_string(),
    };
    assert_eq!(
        PluginBoundary::serialize_v1(&ir),
        "{\"title\":\"\\b\\t\\f\\r\",\"content_html\":\"\\u0001\\u001f\u{7f}\",\"toc_html\":\"ä/\"}"
    );
}

#[test]
fn pages_with_different_texts_have_different_payloads() {
    let payload = |title: &str, content: &str, toc: &str| {
        PluginBoundary::serialize_v1(&PluginPageIrV1 {
            title: title.to_string(),
            content_html: content.to_string(),
            toc_html: toc.to_string(),
        })
    };
    assert_eq!(payload("a", "b", "c"), payload("a", "b", "c"));
    assert_ne!(payload("a\",\"content_html\":\"b", "", "c"), payload("a", "b", "c"));
    assert_ne!(payload("ab", "", ""), payload("a", "b", ""));
}

#[test]
fn boundary_keeps_its_version() {
    let boundary = PluginBoundary::new(PluginApiVersion::V2TypedDraft);
    assert!(matches!(boundary.api_version(), PluginApiVersion::V2TypedDraft));
}

#[test]
fn boundary_errors_say_what_failed() {
    let text = || "x".to_string();
    assert_eq!(PluginBoundaryError::Execution(text()).message(), "plugin execution failed: x");
    assert_eq!(
        PluginBoundaryError::Payload(text()).message(),
        "plugin payload format mismatch: x"
    );
    assert_eq!(PluginBoundaryError::Version(text()).message(), "plugin API version mismatch: x");
}

#[test]
fn limits_follow_from_the_configuration() {
    assert_eq!(fuel_per_call(2_000), 20_000_000);
    assert_eq!(fuel_per_call(1), 100_000);
    assert_eq!(fuel_per_call(u64::MAX), u64::MAX);
    assert_eq!(memory_limit_bytes(128), 134_217_728);
    assert_eq!(memory_limit_bytes(u64::MAX), u64::MAX);
    assert_eq!(PluginHostConfig::default().timeout_ms, 2_000);
}

#[test]
fn plugin_files_have_to_be_components_that_exist() {
    assert!(is_component_candidate("a/b.wasm"));
    assert!(!is_component_candidate("a/b.WASM"));
    assert!(!is_component_candidate("wasm"));
    let paths = vec!["a.wasm".to_string(), "b.txt".to_string()];
    let e = validate_paths(&paths, &vec![false, true]).unwrap_err();
    assert_eq!(e.message("a.wasm"), "plugin not found: a.wasm");
    let e = validate_paths(&paths, &vec![true, true]).unwrap_err();
    assert_eq!(e.message("b.txt"), "plugin must be a .wasm component file: b.txt");
    assert!(validate_paths(&vec!["a.wasm".to_string()], &vec![true]).is_ok());
    assert_eq!(name_of_plugin("x/y.wasm"), "y.wasm");
    assert_eq!(name_of_plugin("/"), "unknown-plugin");
}

#[test]
fn each_hook_hands_the_payload_from_plugin_to_plugin() {
    let host = host();
    assert_eq!(host.plugin_count(), 2);
    assert_eq!(host.timeout_ms(), 2_000);
    assert_eq!(host.fuel(), 20_000_000);
    assert_eq!(host.memory_limit(), 134_217_728);
    assert_eq!(host.name(0), "one.wasm");
    let mut run = host.transform_markdown("text".to_string());
    assert_eq!(run.next(), Some((0, "text")));
    run.advance("text+1".to_string());
    assert_eq!(run.next(), Some((1, "text+1")));
    run.advance("text+1+2".to_string());
    assert_eq!(run.next(), None);
    assert_eq!(run.into_payload(), "text+1+2");
}

#[test]
fn init_hands_every_plugin_the_same_configuration() {
    let host = host();
    let mut run = host.init("{\"a\":1}");
    assert_eq!(run.next(), Some((0, "{\"a\":1}")));
    run.advance("ignored".to_string());
    assert_eq!(run.next(), Some((1, "{\"a\":1}")));
    run.advance(String::new());
    assert_eq!(run.next(), None);
    let mut stop = host.shutdown();
    assert!(stop.next().is_some());
    stop.advance(String::new());
    stop.advance(String::new());
    assert!(stop.next().is_none());
}

#[test]
fn a_host_without_plugins_keeps_the_payload() {
    let host = PluginHost::new(PluginHostConfig::default(), &Vec::new()).unwrap();
    let run = host.on_post_render("<p/>".to_string());
    assert!(run.next().is_none());
    assert_eq!(run.into_payload(), "<p/>");
    assert_eq!(host.on_page_ir("{}".to_string()).into_payload(), "{}");
}

#[test]
fn plugin_lines_are_json() {
    assert_eq!(json_string("a\"b\\c"), "\"a\\\"b\\\\c\"");
    assert_eq!(
        plugin_event_line("p", "init", 12, "ok"),
        "{\"component\":\"plugin\",\"plugin\":\"p\",\"hook\":\"init\",\"duration_ms\":12,\"status\":\"ok\"}"
    );
    assert_eq!(
        host_log_line("info", "hi \"you\""),
        "{\"component\":\"plugin\",\"hook\":\"host.log\",\"status\":\"info\",\"message\":\"hi \\\"you\\\"\"}"
    );
    assert_eq!(Hook::OnPageIr.name(), "on_page_ir");
    assert_eq!(Hook::Init.failure_message("p"), "plugin init failed: p");
}

#[test]
fn hooks_run_in_the_order_of_a_build() {
    let mut life = Lifecycle::new();
    let mut hooks = Vec::new();
    for event in [
        BuildEvent::Started,
        BuildEvent::PageRead,
        BuildEvent::PageParsed,
        BuildEvent::PageRendered,
        BuildEvent::PageRead,
        BuildEvent::PageParsed,
        BuildEvent::PageRendered,
        BuildEvent::Finished,
    ] {
        hooks.push(life.next_hook(event).unwrap());
    }
    assert_eq!(
        hooks,
        [
            Hook::Init,
            Hook::TransformMarkdown,
            Hook::OnPageIr,
            Hook::OnPostRender,
            Hook::TransformMarkdown,
            Hook::OnPageIr,
            Hook::OnPostRender,
            Hook::Shutdown,
        ]
    );
    assert_eq!(life.next_hook(BuildEvent::Started), None);
    assert_eq!(life.next_hook(BuildEvent::Finished), None);
}

#[test]
fn events_out_of_turn_run_no_hook() {
    let mut life = Lifecycle::new();
    assert_eq!(life.next_hook(BuildEvent::PageRead), None);
    assert_eq!(life.next_hook(BuildEvent::Finished), None);
    assert_eq!(life.next_hook(BuildEvent::Started), Some(Hook::Init));
    assert_eq!(life.next_hook(BuildEvent::Started), None);
    assert_eq!(life.next_hook(BuildEvent::PageRead), Some(Hook::TransformMarkdown));
    assert_eq!(life.next_hook(BuildEvent::PageRendered), None);
    assert_eq!(life.next_hook(BuildEvent::Finished), None);
    assert_eq!(life.next_hook(BuildEvent::PageParsed), Some(Hook::OnPageIr));
}
