use skyanswers::dom::{Document, Element};
use skyanswers::extract::{SkyAnswers, TaskAnswer};

fn engine() -> SkyAnswers {
    SkyAnswers::new(String::from("hash"))
}

fn elem(tag: &str, attrs: &[(&str, &str)], text: &str) -> Element {
    Element {
        tag: String::from(tag),
        attrs: attrs.iter().map(|(k, v)| (String::from(*k), String::from(*v))).collect(),
        text: String::from(text),
        descendant_elems: 0,
    }
}

fn doc(elements: Vec<Element>, text: &str) -> Document {
    Document { elements, text: String::from(text) }
}

fn run(elements: Vec<Element>, text: &str) -> TaskAnswer {
    engine().get_task_answer(&doc(elements, text), 1)
}

#[test]
fn no_widgets_yields_no_answers() {
    let answer = run(vec![elem("p", &[], "just prose"), elem("div", &[], "more prose")], "just prose");
    assert!(answer.answers.is_empty());
    assert_eq!(answer.question, "just prose");
}

#[test]
fn empty_document_yields_empty_question() {
    let answer = run(vec![], "");
    assert!(answer.answers.is_empty());
    assert_eq!(answer.question, "");
}

#[test]
fn direct_correct_items_are_collected() {
    let answer = run(
        vec![
            elem("vim-test-item", &[("correct", "true")], "yes"),
            elem("vim-test-item", &[("correct", "false")], "no"),
            elem("vim-test-item", &[], "unmarked"),
            elem("vim-test-item", &[("correct", "true")], "also yes"),
        ],
        "",
    );
    assert_eq!(answer.answers, vec!["yes", "also yes"]);
}

#[test]
fn order_sentence_items_need_no_correct_attribute() {
    let answer = run(vec![elem("vim-order-sentence-verify-item", &[], "first part")], "");
    assert_eq!(answer.answers, vec!["first part"]);
}

#[test]
fn select_items_are_gated_on_correct() {
    let answer = run(
        vec![
            elem("vim-select-item", &[("correct", "true")], "picked"),
            elem("vim-select-item", &[("correct", "false")], "not picked"),
        ],
        "",
    );
    assert_eq!(answer.answers, vec!["picked"]);
}

#[test]
fn image_items_carry_the_correct_suffix() {
    let answer = run(vec![elem("vim-test-image-item", &[("correct", "true")], "a cat")], "");
    assert_eq!(answer.answers, vec!["a cat - Correct"]);
}

#[test]
fn math_input_items_are_collected() {
    let answer = run(vec![elem("math-input-answer", &[], "42")], "");
    assert_eq!(answer.answers, vec!["42"]);
}

#[test]
fn rule_independence_direct_before_math() {
    // The math element stands first in the document, but rule order puts
    // the direct-correct text first.
    let answer = run(
        vec![
            elem("math-input-answer", &[], "3"),
            elem("vim-test-item", &[("correct", "true")], "direct"),
        ],
        "",
    );
    assert_eq!(answer.answers, vec!["direct", "3"]);
}

#[test]
fn free_input_takes_only_the_first_nested_item() {
    let mut container = elem("vim-input-answers", &[], "canonical decoy echo");
    container.descendant_elems = 3;
    let answer = run(
        vec![
            container,
            elem("vim-input-item", &[], "canonical"),
            elem("vim-input-item", &[], "decoy"),
            elem("vim-input-item", &[], "echo"),
        ],
        "",
    );
    assert_eq!(answer.answers, vec!["canonical"]);
}

#[test]
fn free_input_ignores_items_outside_the_container() {
    // The input item stands outside the container's subtree, so the
    // container contributes nothing.
    let answer = run(
        vec![elem("vim-input-answers", &[], ""), elem("vim-input-item", &[], "elsewhere")],
        "",
    );
    assert!(answer.answers.is_empty());
}

#[test]
fn drag_drop_join_follows_drag_ids_order() {
    let answer = run(
        vec![
            elem("vim-dnd-text-drop", &[("drag-ids", "a,b")], ""),
            elem("vim-dnd-text-drag", &[("answer-id", "b")], "Y"),
            elem("vim-dnd-text-drag", &[("answer-id", "a")], "X"),
        ],
        "",
    );
    assert_eq!(answer.answers, vec!["X", "Y"]);
}

#[test]
fn drag_drop_unmatched_id_contributes_nothing() {
    let answer = run(
        vec![
            elem("vim-dnd-text-drop", &[("drag-ids", "a,missing,b")], ""),
            elem("vim-dnd-text-drag", &[("answer-id", "a")], "X"),
            elem("vim-dnd-text-drag", &[("answer-id", "b")], "Y"),
        ],
        "",
    );
    assert_eq!(answer.answers, vec!["X", "Y"]);
}

#[test]
fn drag_drop_fans_out_over_several_drops() {
    let answer = run(
        vec![
            elem("vim-dnd-text-drop", &[("drag-ids", "a")], ""),
            elem("vim-dnd-text-drop", &[("drag-ids", "b,a")], ""),
            elem("vim-dnd-text-drag", &[("answer-id", "a")], "X"),
            elem("vim-dnd-text-drag", &[("answer-id", "b")], "Y"),
        ],
        "",
    );
    assert_eq!(answer.answers, vec!["X", "Y", "X"]);
}

#[test]
fn grouping_payload_decodes_base64() {
    let answer = run(vec![elem("vim-groups-item", &[("text", "SGVsbG8=")], "")], "");
    assert_eq!(answer.answers, vec!["Hello"]);
}

#[test]
fn grouping_invalid_base64_is_skipped_not_fatal() {
    let answer = run(
        vec![
            elem("vim-groups-item", &[("text", "%%%not base64%%%")], ""),
            elem("vim-groups-item", &[("text", "SGVsbG8=")], ""),
        ],
        "",
    );
    assert_eq!(answer.answers, vec!["Hello"]);
}

#[test]
fn all_rules_concatenate_in_rule_order() {
    let answer = run(
        vec![
            elem("vim-groups-item", &[("text", "SGVsbG8=")], ""),
            elem("math-input-answer", &[], "7"),
            elem("vim-dnd-text-drop", &[("drag-ids", "a")], ""),
            elem("vim-dnd-text-drag", &[("answer-id", "a")], "drag"),
            elem("vim-test-image-item", &[("correct", "true")], "img"),
            elem("vim-select-item", &[("correct", "true")], "sel"),
            elem("vim-order-sentence-verify-item", &[], "order"),
            elem("vim-test-item", &[("correct", "true")], "direct"),
        ],
        "",
    );
    assert_eq!(
        answer.answers,
        vec!["direct", "order", "sel", "img - Correct", "drag", "7", "Hello"]
    );
}

#[test]
fn question_text_is_normalized_and_task_number_kept() {
    let answer = engine().get_task_answer(&doc(vec![], "  a\n\n\nb\n "), 7);
    assert_eq!(answer.question, "a\nb");
    assert_eq!(answer.task_number, 7);
}
