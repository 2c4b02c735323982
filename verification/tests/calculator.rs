use paloma_core::capability::calculator::copy_request;
use paloma_core::capability::Action;
use paloma_core::capability::calculator::{
    build_item, calculation_input, COPY_EQUATION_ACTION_LABEL, COPY_RESULT_ACTION_LABEL,
    MAX_EXPRESSION_BYTES,
};
use paloma_core::capability::Capability;
use paloma_core::capability::calculator::Calculator;

#[test]
fn input_with_digits_is_a_candidate() {
    assert_eq!(calculation_input(" 1 + 2 * 3 "), Some(("1 + 2 * 3".to_string(), false)));
}

#[test]
fn trigger_prefix_admits_any_expression() {
    assert_eq!(calculation_input("= pi"), Some(("pi".to_string(), true)));
    assert_eq!(calculation_input("pi"), None);
}

#[test]
fn empty_and_too_long_inputs_are_refused() {
    assert_eq!(calculation_input("   "), None);
    assert_eq!(calculation_input("="), None);
    assert_eq!(calculation_input(&"1+1".repeat(MAX_EXPRESSION_BYTES)), None);
}

#[test]
fn item_offers_result_then_equation() {
    let item = build_item("2 + 2", "4".to_string());
    assert_eq!(item.title, "2 + 2 = 4");
    assert_eq!(item.actions.len(), 2);
    assert_eq!(item.actions[0].label, COPY_RESULT_ACTION_LABEL);
    assert_eq!(item.actions[0].params, vec!["4".to_string()]);
    assert!(item.actions[0].primary);
    assert_eq!(item.actions[1].label, COPY_EQUATION_ACTION_LABEL);
    assert_eq!(item.actions[1].params, vec!["2 + 2 = 4".to_string()]);
    assert!(!item.actions[1].primary);
}

#[test]
fn calculator_identifies_itself() {
    assert_eq!(Calculator.id(), "calculator");
    assert_eq!(Calculator.metadata().name, "Calculator");
}

#[test]
fn copy_actions_copy_their_payload() {
    let action = |label: &str, params: Vec<&str>| Action {
        label: label.to_string(),
        params: params.into_iter().map(str::to_string).collect(),
        primary: false,
    };
    assert_eq!(copy_request(action(COPY_RESULT_ACTION_LABEL, vec!["4"])), Some("4".to_string()));
    assert_eq!(copy_request(action(COPY_EQUATION_ACTION_LABEL, vec!["2 + 2 = 4"])), Some("2 + 2 = 4".to_string()));
    assert_eq!(copy_request(action("Other", vec!["4"])), None);
    assert_eq!(copy_request(action(COPY_RESULT_ACTION_LABEL, vec![])), None);
}
