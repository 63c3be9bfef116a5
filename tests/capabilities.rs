use goose::budget::ResourceItem;
use goose::capabilities::{Capabilities, Extension, ModelUsage, ResourceCache, Tool, UsageTotals};
use goose::json::JsonValue;
use goose::message::AgentError;

fn tool(name: &str) -> Tool {
    Tool::new(name, &format!("{} tool", name), JsonValue::Object(vec![]))
}

fn ext(name: &str, instructions: &str, tools: &[&str]) -> Extension {
    Extension {
        name: name.to_string(),
        instructions: instructions.to_string(),
        tools: tools.iter().map(|t| tool(t)).collect(),
    }
}

fn names(caps: &Capabilities) -> Vec<String> {
    caps.get_prefixed_tools().unwrap().into_iter().map(|t| t.name).collect()
}

#[test]
fn prefixed_tools_are_namespaced() {
    let mut caps = Capabilities::new();
    caps.add_extension(ext("math", "", &["add", "mul"]));
    caps.add_extension(ext("developer", "", &["bash"]));
    assert_eq!(names(&caps), vec!["developer__bash", "math__add", "math__mul"]);
    let tools = caps.get_prefixed_tools().unwrap();
    assert_eq!(tools[0].description, "bash tool");
    assert_eq!(tools[1].description, "add tool");
}

#[test]
fn sorted_by_extension_then_tool() {
    let mut caps = Capabilities::new();
    caps.add_extension(ext("b", "", &["z", "a"]));
    caps.add_extension(ext("a-", "", &["x"]));
    caps.add_extension(ext("a", "", &["y"]));
    // "a" < "a-" < "b" by extension name, whatever the full names sort as.
    assert_eq!(names(&caps), vec!["a__y", "a-__x", "b__a", "b__z"]);
}

#[test]
fn duplicate_prefixed_names_fail() {
    let mut caps = Capabilities::new();
    caps.add_extension(ext("a__b", "", &["c"]));
    caps.add_extension(ext("a", "", &["b__c"]));
    assert_eq!(caps.get_prefixed_tools().unwrap_err(), AgentError::DuplicateTool("a__b__c".to_string()));
}

#[test]
fn prefixed_names_are_distinct_and_well_formed() {
    let mut caps = Capabilities::new();
    caps.add_extension(ext("math", "", &["add", "sub-1"]));
    caps.add_extension(ext("dev_x", "", &["bash"]));
    let all = names(&caps);
    for (i, a) in all.iter().enumerate() {
        assert!(goose::utils::is_valid_function_name(a));
        let (e, t) = a.split_once("__").unwrap();
        assert!(!e.is_empty() && !t.is_empty());
        for b in &all[i + 1..] {
            assert_ne!(a, b);
        }
    }
}

#[test]
fn adding_again_replaces_in_place() {
    let mut caps = Capabilities::new();
    caps.add_extension(ext("a", "one", &["x"]));
    caps.add_extension(ext("b", "", &["y"]));
    caps.add_extension(ext("a", "two", &["z"]));
    assert_eq!(caps.list_extensions(), vec!["a", "b"]);
    assert_eq!(names(&caps), vec!["a__z", "b__y"]);
}

#[test]
fn add_remove_add_matches_single_add() {
    let mut once = Capabilities::new();
    once.add_extension(ext("math", "m", &["add"]));

    let mut thrice = Capabilities::new();
    thrice.add_extension(ext("math", "m", &["add"]));
    assert_eq!(thrice.remove_extension("math"), Ok(()));
    thrice.add_extension(ext("math", "m", &["add"]));

    assert_eq!(once.list_extensions(), thrice.list_extensions());
    assert_eq!(names(&once), names(&thrice));
}

#[test]
fn removing_unknown_extension_fails() {
    let mut caps = Capabilities::new();
    assert_eq!(caps.remove_extension("nope"), Err(AgentError::UnknownExtension("nope".to_string())));
}

#[test]
fn routing_splits_on_first_separator() {
    let mut caps = Capabilities::new();
    caps.add_extension(ext("math", "", &["add"]));
    caps.add_extension(ext("dev", "", &["do__it"]));
    assert_eq!(caps.route_tool_call("math__add"), Ok((0, "add".to_string())));
    assert_eq!(caps.route_tool_call("dev__do__it"), Ok((1, "do__it".to_string())));
    assert_eq!(caps.route_tool_call("math__sub"), Err(AgentError::ToolNotFound("sub".to_string())));
    assert_eq!(caps.route_tool_call("nope__add"), Err(AgentError::UnknownExtension("nope".to_string())));
    assert_eq!(caps.route_tool_call("plain"), Err(AgentError::ToolNotFound("plain".to_string())));
}

fn res(name: &str) -> ResourceItem {
    ResourceItem {
        extension: "e".to_string(),
        name: name.to_string(),
        uri: format!("str:///{}", name),
        content: name.to_string(),
        priority: 0,
        timestamp: 0,
        token_count: 1,
    }
}

#[test]
fn resources_are_one_snapshot_per_turn() {
    let mut cache = ResourceCache::new();
    assert!(cache.get_resources(1).is_none());
    cache.store_resources(1, vec![res("a")]);
    let first: Vec<String> = cache.get_resources(1).unwrap().iter().map(|r| r.name.clone()).collect();
    cache.store_resources(1, vec![res("b")]);
    let second: Vec<String> = cache.get_resources(1).unwrap().iter().map(|r| r.name.clone()).collect();
    assert_eq!(first, second);
    assert_eq!(first, vec!["a"]);
    assert!(cache.get_resources(2).is_none());
    cache.store_resources(2, vec![res("c")]);
    assert_eq!(cache.get_resources(2).unwrap()[0].name, "c");
}

#[test]
fn system_prompt_in_add_order() {
    let mut caps = Capabilities::new();
    caps.add_extension(ext("developer", "Use the shell.", &["bash"]));
    caps.add_extension(ext("memory", "Remember things.", &[]));
    assert_eq!(
        caps.get_system_prompt("You are an agent."),
        "You are an agent.\n\n## developer\nUse the shell.\n\n## memory\nRemember things."
    );
    assert_eq!(Capabilities::new().get_system_prompt("base"), "base");
}

#[test]
fn usage_accumulates_by_model() {
    let mut usage = UsageTotals::new();
    usage.record_usage("gpt-4o", 12, 15);
    usage.record_usage("other", 1, 1);
    usage.record_usage("gpt-4o", 3, 5);
    assert_eq!(
        usage.get_usage(),
        &vec![
            ModelUsage { model: "gpt-4o".to_string(), input_tokens: 15, output_tokens: 20 },
            ModelUsage { model: "other".to_string(), input_tokens: 1, output_tokens: 1 },
        ]
    );
}
