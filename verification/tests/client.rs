use subconscious_core::llm_client::{
    processing_prompt, query_prompt, replace_all, task_descriptions, LLMClient,
};
use subconscious_core::task::Task;

#[test]
fn show_url_swaps_the_endpoint_verb() {
    let c = LLMClient::new("http://localhost:11434/api/generate", "llama3");
    assert_eq!(c.show_url(), "http://localhost:11434/api/show");
    assert_eq!(c.endpoint_url(), "http://localhost:11434/api/generate");
}

#[test]
fn replace_all_handles_repeats_and_absences() {
    assert_eq!(replace_all("abcabc", "abc", "z"), "zz");
    assert_eq!(replace_all("nothing here", "abc", "z"), "nothing here");
    assert_eq!(replace_all("aaa", "aa", "b"), "ba");
    assert_eq!(replace_all("", "abc", "z"), "");
}

#[test]
fn changing_the_model_keeps_the_endpoint() {
    let mut c = LLMClient::new("http://host/api/generate", "small");
    assert_eq!(c.model_name(), "small");
    c.change_model("large");
    assert_eq!(c.model_name(), "large");
    assert_eq!(c.endpoint_url(), "http://host/api/generate");
}

#[test]
fn query_prompt_lists_tasks_then_query() {
    let descriptions = vec!["watch".to_string(), "learn".to_string()];
    assert_eq!(
        query_prompt("what next?", &descriptions),
        "Current tasks: [\"watch\", \"learn\"]\nwhat next?"
    );
    assert_eq!(query_prompt("alone", &Vec::new()), "Current tasks: []\nalone");
}

#[test]
fn query_prompt_escapes_special_characters() {
    let descriptions = vec!["say \"hi\"".to_string(), "a\\b\nc\td\re".to_string()];
    let rendered = format!("Current tasks: {:?}\n{}", descriptions, "q");
    assert_eq!(query_prompt("q", &descriptions), rendered);
    assert_eq!(
        query_prompt("q", &descriptions),
        "Current tasks: [\"say \\\"hi\\\"\", \"a\\\\b\\nc\\td\\re\"]\nq"
    );
}

#[test]
fn processing_prompt_is_the_description() {
    let t = Task::new("do the thing".to_string(), "act".to_string(), false);
    assert_eq!(processing_prompt(&t), "do the thing");
}

#[test]
fn task_descriptions_project_in_order() {
    let tasks = vec![
        Task::new("one".to_string(), "a".to_string(), false),
        Task::new("two".to_string(), "b".to_string(), true),
    ];
    assert_eq!(
        task_descriptions(&tasks),
        vec!["one".to_string(), "two".to_string()]
    );
}
