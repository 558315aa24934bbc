use skyanswers::extract::SkyAnswers;
use skyanswers::session::ApiError;

fn engine() -> SkyAnswers {
    SkyAnswers::new(String::from("hash"))
}

fn ids(n: usize) -> Vec<String> {
    (0..n).map(|i| format!("uuid-{}", i)).collect()
}

#[test]
fn plan_keeps_resolved_order() {
    let plan = engine().plan_task_fetches(Ok(ids(3)));
    assert_eq!(plan, vec!["uuid-0", "uuid-1", "uuid-2"]);
}

#[test]
fn plan_caps_sixty_identifiers_at_fifty() {
    let plan = engine().plan_task_fetches(Ok(ids(60)));
    assert_eq!(plan.len(), 50);
    assert_eq!(plan.first().unwrap(), "uuid-0");
    assert_eq!(plan.last().unwrap(), "uuid-49");
}

#[test]
fn plan_of_exactly_fifty_is_kept_whole() {
    let plan = engine().plan_task_fetches(Ok(ids(50)));
    assert_eq!(plan, ids(50));
}

#[test]
fn resolution_failure_degrades_to_empty_plan() {
    let plan = engine().plan_task_fetches(Err(ApiError::Resolution));
    assert!(plan.is_empty());
    let answers = engine().assemble_answers(Vec::new());
    assert!(answers.is_empty());
}

#[test]
fn failed_fetch_is_skipped_and_numbering_compacts() {
    // Three resolved tasks; the second fails to fetch.  Exactly the
    // first and third produce entries, numbered 1 and 2.
    let m1 = String::from("<vim-test-item correct=\"true\">one</vim-test-item>");
    let m3 = String::from("<vim-test-item correct=\"true\">three</vim-test-item>");
    let answers = engine().assemble_answers(vec![Some(m1), None, Some(m3)]);
    assert_eq!(answers.len(), 2);
    assert_eq!(answers[0].task_number, 1);
    assert_eq!(answers[0].answers, vec!["one"]);
    assert_eq!(answers[1].task_number, 2);
    assert_eq!(answers[1].answers, vec!["three"]);
}

#[test]
fn assemble_parses_markup_through_the_real_parser() {
    let markup = String::from(
        "<div><vim-test-item correct=\"true\">alpha</vim-test-item>\
         <vim-select-item correct=\"true\">beta</vim-select-item></div>",
    );
    let answers = engine().assemble_answers(vec![Some(markup)]);
    assert_eq!(answers.len(), 1);
    assert_eq!(answers[0].answers, vec!["alpha", "beta"]);
    assert_eq!(answers[0].question, "alphabeta");
}

#[test]
fn assemble_joins_drag_drop_through_the_real_parser() {
    let markup = String::from(
        "<vim-dnd-text-drop drag-ids=\"a,b\"></vim-dnd-text-drop>\
         <vim-dnd-text-drag answer-id=\"a\">X</vim-dnd-text-drag>\
         <vim-dnd-text-drag answer-id=\"b\">Y</vim-dnd-text-drag>",
    );
    let answers = engine().assemble_answers(vec![Some(markup)]);
    assert_eq!(answers.len(), 1);
    assert_eq!(answers[0].answers, vec!["X", "Y"]);
}

#[test]
fn assemble_takes_first_nested_input_item() {
    let markup = String::from(
        "<vim-input-answers><vim-input-item>canonical</vim-input-item>\
         <vim-input-item>decoy</vim-input-item></vim-input-answers>",
    );
    let answers = engine().assemble_answers(vec![Some(markup)]);
    assert_eq!(answers.len(), 1);
    assert_eq!(answers[0].answers, vec!["canonical"]);
}

#[test]
fn assemble_decodes_groupings_through_the_real_parser() {
    let markup = String::from(
        "<vim-groups-item text=\"SGVsbG8=\"></vim-groups-item>\
         <vim-groups-item text=\"***\"></vim-groups-item>",
    );
    let answers = engine().assemble_answers(vec![Some(markup)]);
    assert_eq!(answers.len(), 1);
    assert_eq!(answers[0].answers, vec!["Hello"]);
}

#[test]
fn assemble_normalizes_question_text() {
    let markup = String::from("<p>a\n\n\nb\n</p>");
    let answers = engine().assemble_answers(vec![Some(markup)]);
    assert_eq!(answers.len(), 1);
    assert_eq!(answers[0].question, "a\nb");
    assert!(answers[0].answers.is_empty());
}
