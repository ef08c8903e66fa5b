use llama_test_matrix::server::{
    build_server_command, item_entry, listing_entries, model_response_matches, port_busy_error, ready_step,
    ready_timeout_error, wrong_model_error, ListedItem, ListingValue, ModelEntry, ModelListing, ReadyStep,
};
use llama_test_matrix::matrix::parse_gpu_devices;

fn entry(id: &str, name: &str, model: &str, aliases: &[&str]) -> ModelEntry {
    ModelEntry {
        id: id.to_string(),
        name: name.to_string(),
        model: model.to_string(),
        aliases: aliases.iter().map(|a| a.to_string()).collect(),
    }
}

#[test]
fn test_build_server_command_no_gpu() {
    let cmd = build_server_command("/bin/llama-server", "/tmp/m.gguf", "m", 18080, &[], 4, 4096, 512, 99);
    assert_eq!(cmd[0], "/bin/llama-server");
    assert!(cmd.contains(&"--model".to_string()));
    assert!(cmd.contains(&"/tmp/m.gguf".to_string()));
    assert!(cmd.contains(&"--parallel".to_string()));
    assert!(cmd.contains(&"4".to_string()));
    assert!(!cmd.contains(&"--device".to_string()));
}

#[test]
fn test_build_server_command_with_gpu() {
    let cmd = build_server_command(
        "/bin/llama-server",
        "/tmp/m.gguf",
        "m",
        18080,
        &["CUDA0".to_string(), "CUDA1".to_string()],
        4,
        4096,
        512,
        99,
    );
    let idx = cmd.iter().position(|s| s == "--device").unwrap();
    assert_eq!(cmd[idx + 1], "CUDA0,CUDA1");
}

#[test]
fn test_build_server_command_none_gpu() {
    let cmd = build_server_command("/bin/llama-server", "/tmp/m.gguf", "m", 18080, &["none".to_string()], 4, 4096, 512, 99);
    assert!(!cmd.contains(&"--device".to_string()));
}

#[test]
fn server_command_lists_every_setting_in_order() {
    let cmd = build_server_command("llama-server", "/m.gguf", "qwen", 8080, &[], 2, 8192, 1024, 40);
    let expected: Vec<String> = [
        "llama-server", "--model", "/m.gguf", "--alias", "qwen", "--host", "0.0.0.0", "--port", "8080",
        "--parallel", "2", "--ctx-size", "8192", "--batch-size", "1024", "--cont-batching", "--metrics",
        "-ngl", "40",
    ]
    .iter()
    .map(|s| s.to_string())
    .collect();
    assert_eq!(cmd, expected);
}

#[test]
fn test_model_response_matches_id() {
    let data = vec![entry("m", "", "", &[])];
    assert!(model_response_matches(&data, "m"));
    assert!(!model_response_matches(&data, "other"));
}

#[test]
fn test_model_response_matches_aliases() {
    let data = vec![entry("x", "", "", &["m", "y"])];
    assert!(model_response_matches(&data, "m"));
}

#[test]
fn test_model_response_matches_models_array() {
    let data = vec![entry("", "m", "", &[])];
    assert!(model_response_matches(&data, "m"));
}

#[test]
fn test_model_response_matches_empty() {
    let data: Vec<ModelEntry> = vec![];
    assert!(!model_response_matches(&data, "m"));
}

#[test]
fn readiness_needs_a_listing_with_the_model() {
    let data = vec![entry("m", "", "", &[])];
    assert_eq!(ready_step(200, Some(&data), "m"), ReadyStep::Ready);
    assert_eq!(ready_step(200, Some(&data), "other"), ReadyStep::WrongModel);
    assert_eq!(ready_step(503, Some(&data), "m"), ReadyStep::Wait);
    assert_eq!(ready_step(200, None, "m"), ReadyStep::Wait);
}

#[test]
fn server_error_texts() {
    assert_eq!(wrong_model_error(18080, "m"), "端口 18080 返回了 200，但模型名不是当前启动的 m");
    assert_eq!(ready_timeout_error(18080), "等待服务启动超时: http://127.0.0.1:18080/v1/models");
    assert_eq!(port_busy_error(18080), "端口 18080 已被占用，拒绝复用旧服务");
}

fn item(id: Option<&str>, name: Option<&str>) -> ListedItem {
    ListedItem {
        id: id.map(|s| s.to_string()),
        name: name.map(|s| s.to_string()),
        model: None,
        aliases: None,
    }
}

#[test]
fn listing_data_field_wins_over_models() {
    let l = ModelListing {
        data: Some(ListingValue::List(vec![item(Some("a"), None), item(None, Some("b"))])),
        models: Some(ListingValue::List(vec![item(Some("c"), None)])),
    };
    let es = listing_entries(&l);
    assert_eq!(es.len(), 2);
    assert_eq!(es[0].id, "a");
    assert_eq!(es[0].name, "");
    assert_eq!(es[1].name, "b");
    assert!(model_response_matches(&es, "b"));
    assert!(!model_response_matches(&es, "c"));
}

#[test]
fn listing_single_object_and_other_values() {
    let one = ModelListing { data: None, models: Some(ListingValue::Single(item(None, Some("m")))) };
    let es = listing_entries(&one);
    assert_eq!(es.len(), 1);
    assert!(model_response_matches(&es, "m"));
    let other = ModelListing { data: Some(ListingValue::Other), models: Some(ListingValue::Single(item(Some("m"), None))) };
    assert!(listing_entries(&other).is_empty());
    let none = ModelListing { data: None, models: None };
    assert!(listing_entries(&none).is_empty());
}

#[test]
fn listed_item_keeps_text_aliases() {
    let it = ListedItem {
        id: None,
        name: None,
        model: Some("mm".to_string()),
        aliases: Some(vec![Some("x".to_string()), None, Some("y".to_string())]),
    };
    let e = item_entry(&it);
    assert_eq!(e.model, "mm");
    assert_eq!(e.aliases, vec!["x".to_string(), "y".to_string()]);
}

#[test]
fn plain_selections_add_no_device_option() {
    for sel in ["all", "none", "cpu", "", "ALL", " None "] {
        let (_, devs) = parse_gpu_devices(sel).unwrap();
        let cmd = build_server_command("/bin/llama-server", "/tmp/m.gguf", "m", 18080, &devs, 4, 4096, 512, 99);
        assert!(!cmd.contains(&"--device".to_string()), "{}", sel);
    }
    let (_, devs) = parse_gpu_devices("0-1").unwrap();
    let cmd = build_server_command("/bin/llama-server", "/tmp/m.gguf", "m", 18080, &devs, 4, 4096, 512, 99);
    assert!(cmd.contains(&"--device".to_string()));
}
