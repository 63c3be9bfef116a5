use goose::system::{select_provider_lists, Envs, SystemConfig, SystemInfo};
use std::collections::HashMap;

#[test]
fn envs_round_trip() {
    let mut map = HashMap::new();
    map.insert("API_KEY".to_string(), "k".to_string());
    let envs = Envs::new(map.clone());
    assert_eq!(envs.get_env(), map);
    assert!(Envs::default().get_env().is_empty());
}

#[test]
fn configs_describe_themselves() {
    assert_eq!(SystemConfig::sse("http://localhost:8000/sse").describe(), "SSE(http://localhost:8000/sse)");
    let stdio = SystemConfig::stdio("npx").with_args(vec!["-y".to_string(), "server".to_string()]);
    assert_eq!(stdio.describe(), "Stdio(npx -y server)");
    assert_eq!(SystemConfig::stdio("cat").describe(), "Stdio(cat )");
    assert_eq!(SystemConfig::sse("u").with_args(vec!["x".to_string()]).describe(), "SSE(u)");
}

#[test]
fn system_info_keeps_its_text() {
    let info = SystemInfo::new("dev", "does things", "use it");
    assert_eq!(info.name, "dev");
    assert_eq!(info.description, "does things");
    assert_eq!(info.instructions, "use it");
}

#[test]
fn provider_lists() {
    let list = select_provider_lists();
    assert_eq!(
        list,
        vec![
            ("openai", "openai".to_string(), "Recommended"),
            ("databricks", "databricks".to_string(), ""),
            ("ollama", "ollama".to_string(), ""),
        ]
    );
}
