use ai_credit_status::json::{read_json, Json};
use ai_credit_status::number::Double;
use ai_credit_status::openai::parse_openai_spent_usd;

fn double(x: f64) -> Double {
    Double::from_bits(x.to_bits())
}

fn spent(text: &str) -> Option<f64> {
    parse_openai_spent_usd(&read_json(text).unwrap()).map(|d| f64::from_bits(d.bits))
}

fn number(x: f64) -> Json {
    Json::Number(Some(double(x)))
}

fn object(members: Vec<(&str, Json)>) -> Json {
    Json::Object(members.into_iter().map(|(k, v)| (k.to_string(), v)).collect())
}

#[test]
fn documents_are_taken_over_whole() {
    let json = read_json(r#"{"a": [1, -2.5, "x", null, true], "b": {"c": 18446744073709551615}}"#)
        .unwrap();
    let expected = object(vec![
        (
            "a",
            Json::Array(vec![
                number(1.0),
                number(-2.5),
                Json::Text("x".to_string()),
                Json::Null,
                Json::Bool(true),
            ]),
        ),
        ("b", object(vec![("c", number(18446744073709551615.0))])),
    ]);
    assert_eq!(json, expected);
}

#[test]
fn what_is_not_json_is_refused() {
    for text in ["", "{", "nul", "{\"a\": 1} x", "[1,]", "1e400"] {
        assert!(read_json(text).is_err());
    }
}

#[test]
fn members_items_and_numbers() {
    let json = read_json(r#"{"a": 1, "b": [2], "a b": null}"#).unwrap();
    assert_eq!(json.member("a").unwrap().number(), Some(double(1.0)));
    assert_eq!(json.member("b").unwrap().items().unwrap().len(), 1);
    assert_eq!(json.member("a b"), Some(&Json::Null));
    assert_eq!(json.member("c"), None);
    assert_eq!(json.items(), None);
    assert_eq!(json.number(), None);
    assert_eq!(Json::Array(vec![]).member("a"), None);
}

#[test]
fn a_stated_total_is_in_cents() {
    assert_eq!(spent(r#"{"total_usage": 1234}"#), Some(12.34));
    assert_eq!(spent(r#"{"total_usage": 0.5, "data": []}"#), Some(0.005));
    assert_eq!(
        spent(r#"{"total_usage": 100, "data": [{"results": [{"amount": {"value": 9}}]}]}"#),
        Some(1.0)
    );
}

#[test]
fn listed_costs_are_added_up() {
    let text = r#"{"data": [
        {"results": [{"amount": {"value": 0.1}}, {"amount": {"value": 0.2}}]},
        {"results": []},
        {"other": 1},
        {"results": [{"amount": {"value": "3"}}, {"amount": 4}, 5, {"amount": {"value": 0.3}}]}
    ]}"#;
    assert_eq!(spent(text), Some(0.0 + 0.1 + 0.2 + 0.3));
    assert_eq!(spent(r#"{"data": [{"results": [{"amount": {"value": -0.0}}]}]}"#), Some(0.0));
}

#[test]
fn replies_without_costs_report_nothing() {
    for text in [
        "{}",
        "[]",
        "null",
        "3",
        r#"{"total_usage": "12"}"#,
        r#"{"total_usage": null, "data": {}}"#,
        r#"{"data": []}"#,
        r#"{"data": [{"results": {}}, [], {"results": [{"amount": {}}]}]}"#,
    ] {
        assert_eq!(spent(text), None);
    }
}

#[test]
fn a_total_that_is_no_number_gives_way_to_the_costs() {
    assert_eq!(
        spent(r#"{"total_usage": "x", "data": [{"results": [{"amount": {"value": 2}}]}]}"#),
        Some(2.0)
    );
}

#[test]
fn joined_buckets_report_the_sum() {
    let a = r#"{"results": [{"amount": {"value": 3}}, {"amount": {"value": -7}}]}"#;
    let b = r#"{"results": [{"amount": {"value": 9007199254740000}}]}"#;
    let nothing = r#"{"results": []}"#;
    let report = |buckets: &[&str]| spent(&format!("{{\"data\": [{}]}}", buckets.join(",")));
    assert_eq!(report(&[a]), Some(-4.0));
    assert_eq!(report(&[b]), Some(9007199254740000.0));
    assert_eq!(report(&[a, b]), Some(9007199254739996.0));
    assert_eq!(report(&[b, a]), Some(9007199254739996.0));
    assert_eq!(report(&[a, nothing]), Some(-4.0));
    assert_eq!(report(&[nothing, b]), Some(9007199254740000.0));
    assert_eq!(report(&[nothing, nothing]), None);
}

#[test]
fn sums_out_of_range_are_infinite_and_stay_so() {
    let text = r#"{"data": [{"results": [
        {"amount": {"value": 1e308}}, {"amount": {"value": 1e308}}, {"amount": {"value": -1e308}}
    ]}]}"#;
    assert_eq!(spent(text), Some(f64::INFINITY));
}
