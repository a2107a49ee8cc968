use pact_protobuf_plugin::config_parts::{request_part, response_part};
use pact_protobuf_plugin::field_values::JsonNumber;
use pact_protobuf_plugin::generators::JsonValue;

fn entry(key: &str, value: JsonValue) -> (String, JsonValue) {
    (key.to_string(), value)
}

fn text(s: &str) -> JsonValue {
    JsonValue::String(s.to_string())
}

fn number(n: f64) -> JsonValue {
    JsonValue::Number(JsonNumber::Float(n.to_bits()))
}

fn check_configuring_request_part_returns_the_config_as_is_if_the_service_part_is_for_the_request() {
    let result = request_part(vec![entry("A", JsonValue::Null)], "request").unwrap();
    assert_eq!(result, vec![entry("A", JsonValue::Null)]);
}

#[test]
fn protobuf_configuring_request_part_returns_the_config_as_is_if_the_service_part_is_for_the_request() {
    check_configuring_request_part_returns_the_config_as_is_if_the_service_part_is_for_the_request();
}

#[test]
fn mod_configuring_request_part_returns_the_config_as_is_if_the_service_part_is_for_the_request() {
    check_configuring_request_part_returns_the_config_as_is_if_the_service_part_is_for_the_request();
}

fn check_configuring_request_part_returns_empty_map_if_there_is_no_request_element() {
    let result = request_part(vec![], "").unwrap();
    assert_eq!(result, vec![]);
}

#[test]
fn protobuf_configuring_request_part_returns_empty_map_if_there_is_no_request_element() {
    check_configuring_request_part_returns_empty_map_if_there_is_no_request_element();
}

#[test]
fn mod_configuring_request_part_returns_empty_map_if_there_is_no_request_element() {
    check_configuring_request_part_returns_empty_map_if_there_is_no_request_element();
}

fn check_configuring_request_part_returns_an_error_if_request_config_is_not_the_correct_form() {
    let result = request_part(vec![entry("request", number(0.0))], "");
    assert!(result.is_err());
}

#[test]
fn protobuf_configuring_request_part_returns_an_error_if_request_config_is_not_the_correct_form() {
    check_configuring_request_part_returns_an_error_if_request_config_is_not_the_correct_form();
}

#[test]
fn mod_configuring_request_part_returns_an_error_if_request_config_is_not_the_correct_form() {
    check_configuring_request_part_returns_an_error_if_request_config_is_not_the_correct_form();
}

fn check_configuring_request_part_returns_any_struct_from_the_request_attribute() {
    let config = vec![entry("request", JsonValue::Object(vec![entry("A", text("B"))]))];
    let result = request_part(config, "").unwrap();
    assert_eq!(result, vec![entry("A", text("B"))]);
}

#[test]
fn protobuf_configuring_request_part_returns_any_struct_from_the_request_attribute() {
    check_configuring_request_part_returns_any_struct_from_the_request_attribute();
}

#[test]
fn mod_configuring_request_part_returns_any_struct_from_the_request_attribute() {
    check_configuring_request_part_returns_any_struct_from_the_request_attribute();
}

fn check_configuring_request_part_returns_a_struct_with_a_value_attribute_if_the_request_attribute_is_a_string() {
    let result = request_part(vec![entry("request", text("B"))], "").unwrap();
    assert_eq!(result, vec![entry("value", text("B"))]);
}

#[test]
fn protobuf_configuring_request_part_returns_a_struct_with_a_value_attribute_if_the_request_attribute_is_a_string() {
    check_configuring_request_part_returns_a_struct_with_a_value_attribute_if_the_request_attribute_is_a_string();
}

#[test]
fn mod_configuring_request_part_returns_a_struct_with_a_value_attribute_if_the_request_attribute_is_a_string() {
    check_configuring_request_part_returns_a_struct_with_a_value_attribute_if_the_request_attribute_is_a_string();
}

fn check_configuring_response_part_returns_the_config_as_is_if_the_service_part_is_for_the_response() {
    let result = response_part(vec![entry("A", JsonValue::Null)], "response");
    assert_eq!(result, vec![(vec![entry("A", JsonValue::Null)], None)]);
}

#[test]
fn protobuf_configuring_response_part_returns_the_config_as_is_if_the_service_part_is_for_the_response() {
    check_configuring_response_part_returns_the_config_as_is_if_the_service_part_is_for_the_response();
}

#[test]
fn mod_configuring_response_part_returns_the_config_as_is_if_the_service_part_is_for_the_response() {
    check_configuring_response_part_returns_the_config_as_is_if_the_service_part_is_for_the_response();
}

fn check_configuring_response_part_returns_empty_map_if_there_is_no_response_elements() {
    let result = response_part(vec![], "");
    assert_eq!(result, vec![]);
}

#[test]
fn protobuf_configuring_response_part_returns_empty_map_if_there_is_no_response_elements() {
    check_configuring_response_part_returns_empty_map_if_there_is_no_response_elements();
}

#[test]
fn mod_configuring_response_part_returns_empty_map_if_there_is_no_response_elements() {
    check_configuring_response_part_returns_empty_map_if_there_is_no_response_elements();
}

fn check_configuring_response_part_ignores_any_config_that_is_not_the_correct_form() {
    let result = response_part(vec![entry("response", number(0.0))], "");
    assert_eq!(result, vec![]);
}

#[test]
fn protobuf_configuring_response_part_ignores_any_config_that_is_not_the_correct_form() {
    check_configuring_response_part_ignores_any_config_that_is_not_the_correct_form();
}

#[test]
fn mod_configuring_response_part_ignores_any_config_that_is_not_the_correct_form() {
    check_configuring_response_part_ignores_any_config_that_is_not_the_correct_form();
}

fn check_configuring_response_part_returns_any_struct_from_the_response_attribute() {
    let config = vec![entry("response", JsonValue::Object(vec![entry("A", text("B"))]))];
    let result = response_part(config, "");
    assert_eq!(result, vec![(vec![entry("A", text("B"))], None)]);
}

#[test]
fn protobuf_configuring_response_part_returns_any_struct_from_the_response_attribute() {
    check_configuring_response_part_returns_any_struct_from_the_response_attribute();
}

#[test]
fn mod_configuring_response_part_returns_any_struct_from_the_response_attribute() {
    check_configuring_response_part_returns_any_struct_from_the_response_attribute();
}

fn check_configuring_response_part_returns_a_struct_with_a_value_attribute_if_the_response_attribute_is_a_string() {
    let result = response_part(vec![entry("response", text("B"))], "");
    assert_eq!(result, vec![(vec![entry("value", text("B"))], None)]);
}

#[test]
fn protobuf_configuring_response_part_returns_a_struct_with_a_value_attribute_if_the_response_attribute_is_a_string() {
    check_configuring_response_part_returns_a_struct_with_a_value_attribute_if_the_response_attribute_is_a_string();
}

#[test]
fn mod_configuring_response_part_returns_a_struct_with_a_value_attribute_if_the_response_attribute_is_a_string() {
    check_configuring_response_part_returns_a_struct_with_a_value_attribute_if_the_response_attribute_is_a_string();
}

fn check_configuring_response_part_configures_each_item_if_the_response_attribute_is_a_list() {
    let config = vec![entry("response", JsonValue::Array(vec![
        JsonValue::Object(vec![entry("A", text("B"))]),
        JsonValue::Object(vec![entry("C", text("D"))]),
    ]))];
    let result = response_part(config, "");
    assert_eq!(result, vec![
        (vec![entry("A", text("B"))], None),
        (vec![entry("C", text("D"))], None),
    ]);
}

#[test]
fn protobuf_configuring_response_part_configures_each_item_if_the_response_attribute_is_a_list() {
    check_configuring_response_part_configures_each_item_if_the_response_attribute_is_a_list();
}

#[test]
fn mod_configuring_response_part_configures_each_item_if_the_response_attribute_is_a_list() {
    check_configuring_response_part_configures_each_item_if_the_response_attribute_is_a_list();
}

fn check_configuring_response_part_returns_also_returns_metadata_from_the_response_metadata_attribute() {
    let config = vec![
        entry("response", JsonValue::Object(vec![entry("A", text("B"))])),
        entry("responseMetadata", JsonValue::Object(vec![entry("C", text("D"))])),
    ];
    let result = response_part(config, "");
    let expected_metadata = JsonValue::Object(vec![entry("C", text("D"))]);
    assert_eq!(result, vec![(vec![entry("A", text("B"))], Some(expected_metadata))]);
}

#[test]
fn protobuf_configuring_response_part_returns_also_returns_metadata_from_the_response_metadata_attribute() {
    check_configuring_response_part_returns_also_returns_metadata_from_the_response_metadata_attribute();
}

#[test]
fn mod_configuring_response_part_returns_also_returns_metadata_from_the_response_metadata_attribute() {
    check_configuring_response_part_returns_also_returns_metadata_from_the_response_metadata_attribute();
}

fn check_configuring_response_part_deals_with_the_case_where_there_is_only_metadata() {
    let config = vec![entry("responseMetadata", JsonValue::Object(vec![entry("C", text("D"))]))];
    let result = response_part(config, "");
    let expected_metadata = JsonValue::Object(vec![entry("C", text("D"))]);
    assert_eq!(result, vec![(vec![], Some(expected_metadata))]);
}

#[test]
fn protobuf_configuring_response_part_deals_with_the_case_where_there_is_only_metadata() {
    check_configuring_response_part_deals_with_the_case_where_there_is_only_metadata();
}

#[test]
fn mod_configuring_response_part_deals_with_the_case_where_there_is_only_metadata() {
    check_configuring_response_part_deals_with_the_case_where_there_is_only_metadata();
}
