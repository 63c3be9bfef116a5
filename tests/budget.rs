use goose::budget::{format_status, prepare_inference, rank_resources, select_resources, strip_status, ResourceItem};
use goose::message::{Content, Message, MessageContent, Role};

fn item(name: &str, content: &str, priority: u32, timestamp: i64, tokens: u64) -> ResourceItem {
    ResourceItem {
        extension: "ext".to_string(),
        name: name.to_string(),
        uri: format!("str:///{}", name),
        content: content.to_string(),
        priority,
        timestamp,
        token_count: tokens,
    }
}

#[test]
fn ranks_by_priority_then_newest() {
    let rs = vec![item("a", "", 500, 1, 0), item("b", "", 900, 0, 0), item("c", "", 500, 2, 0)];
    assert_eq!(rank_resources(&rs), vec![1, 2, 0]);
}

#[test]
fn equal_priority_and_time_keep_listing_order() {
    let rs = vec![item("a", "", 500, 1, 0), item("b", "", 500, 1, 0)];
    assert_eq!(rank_resources(&rs), vec![0, 1]);
}

#[test]
fn trim_by_priority_keeps_high_and_newer() {
    // Three resources of 800 tokens each over a 200-token baseline; the budget
    // has room for two of them.
    let baseline = 200;
    let rs = vec![item("high", "", 900, 0, 800), item("older", "", 500, 1, 800), item("newer", "", 500, 2, 800)];
    let kept = select_resources(&rs, baseline + 3 * 800, baseline + 2 * 800);
    assert_eq!(kept, vec![0, 2]);
}

#[test]
fn budget_exactly_at_target_trims_nothing() {
    let rs = vec![item("a", "", 100, 0, 400), item("b", "", 200, 0, 400)];
    assert_eq!(select_resources(&rs, 1000, 1000), vec![1, 0]);
}

#[test]
fn budget_one_over_target_drops_the_worst() {
    let rs = vec![item("a", "", 100, 0, 400), item("b", "", 200, 0, 400)];
    assert_eq!(select_resources(&rs, 1001, 1000), vec![1]);
}

#[test]
fn budget_far_over_target_drops_everything() {
    let rs = vec![item("a", "", 100, 0, 1), item("b", "", 200, 0, 1)];
    assert_eq!(select_resources(&rs, 5000, 10), Vec::<usize>::new());
}

#[test]
fn status_text_fences_each_resource() {
    let rs = vec![item("one", "first", 0, 0, 0), item("two", "second", 0, 0, 0)];
    assert_eq!(format_status(&rs, &vec![1, 0]), "two\n```\nsecond\n```\n\none\n```\nfirst\n```\n");
    assert_eq!(format_status(&rs, &vec![]), "");
}

#[test]
fn prepare_inference_appends_status_pair() {
    let rs = vec![item("cwd", "/home", 1000, 0, 1)];
    let history = vec![Message::user().with_text("Hi")];
    let out = prepare_inference(history, vec![Message::assistant().with_text("Hello")], &rs, &vec![0], 7);
    assert_eq!(out.len(), 4);
    assert_eq!(out[2].role, Role::Assistant);
    match &out[2].content[0] {
        MessageContent::ToolRequest(q) => {
            assert_eq!(q.id, "000");
            assert_eq!(q.tool_call.as_ref().unwrap().name, "status");
        }
        _ => panic!("expected the status request"),
    }
    match &out[3].content[0] {
        MessageContent::ToolResponse(p) => {
            assert_eq!(p.id, "000");
            assert_eq!(p.tool_result, Ok(vec![Content::text("cwd\n```\n/home\n```\n")]));
        }
        _ => panic!("expected the status response"),
    }
}

#[test]
fn prepare_inference_without_resources_adds_nothing() {
    let out = prepare_inference(vec![Message::user().with_text("Hi")], vec![], &vec![], &vec![], 0);
    assert_eq!(out.len(), 1);
}

#[test]
fn status_pair_is_stripped_and_only_it() {
    let rs = vec![item("cwd", "/home", 1000, 0, 1)];
    let history = vec![Message::user().with_text("Hi")];
    let mut out = prepare_inference(history, vec![], &rs, &vec![0], 0);
    strip_status(&mut out);
    assert_eq!(out, vec![Message::user().with_text("Hi")]);
    strip_status(&mut out);
    assert_eq!(out.len(), 1);
}
