use equivalent_domains::auth::Claims;
use equivalent_domains::error::AppError;
use equivalent_domains::json::JsonValue;
use equivalent_domains::settings::{get_domains, post_domains, put_domains, EquivDomainData};

fn claims() -> Claims {
    Claims { sub: "user-1".to_string() }
}

fn s(text: &str) -> JsonValue {
    JsonValue::Str(text.to_string())
}

fn obj(members: Vec<(&str, JsonValue)>) -> JsonValue {
    JsonValue::Object(members.into_iter().map(|(k, v)| (k.to_string(), v)).collect())
}

fn ints(values: &[i128]) -> JsonValue {
    JsonValue::Array(values.iter().map(|n| JsonValue::Int(*n)).collect())
}

fn groups(values: &[&[&str]]) -> JsonValue {
    JsonValue::Array(values.iter().map(|g| JsonValue::Array(g.iter().map(|d| s(d)).collect())).collect())
}

/// `{"equivalentDomains":[["a.com","b.com"]],"excludedGlobalEquivalentDomains":[1,2]}`
fn sample_body() -> JsonValue {
    obj(vec![
        ("equivalentDomains", groups(&[&["a.com", "b.com"]])),
        ("excludedGlobalEquivalentDomains", ints(&[1, 2])),
    ])
}

fn decode(body: &JsonValue) -> EquivDomainData {
    EquivDomainData::from_json(body).expect("valid body")
}

fn is_bad_request(r: Result<EquivDomainData, AppError>) -> bool {
    matches!(r, Err(AppError::BadRequest(_)))
}

#[test]
fn get_domains_returns_empty_settings() {
    let expected = obj(vec![
        ("equivalentDomains", JsonValue::Array(vec![])),
        ("globalEquivalentDomains", JsonValue::Array(vec![])),
        ("object", s("domains")),
    ]);
    assert_eq!(get_domains(claims()).unwrap(), expected);
}

#[test]
fn get_domains_is_the_same_for_every_caller() {
    let other = Claims { sub: "someone-else".to_string() };
    assert_eq!(get_domains(claims()).unwrap(), get_domains(other).unwrap());
}

#[test]
fn post_domains_answers_empty_object() {
    let payload = decode(&sample_body());
    assert_eq!(post_domains(claims(), payload).unwrap(), JsonValue::Object(vec![]));
}

#[test]
fn post_domains_accepts_empty_payload() {
    let payload = decode(&obj(vec![]));
    assert_eq!(post_domains(claims(), payload).unwrap(), JsonValue::Object(vec![]));
}

#[test]
fn put_domains_answers_like_post() {
    let posted = post_domains(claims(), decode(&sample_body())).unwrap();
    let put = put_domains(claims(), decode(&sample_body())).unwrap();
    assert_eq!(put, JsonValue::Object(vec![]));
    assert_eq!(put, posted);
}

#[test]
fn posting_twice_gives_the_same_answer() {
    let first = post_domains(claims(), decode(&sample_body())).unwrap();
    let second = post_domains(claims(), decode(&sample_body())).unwrap();
    assert_eq!(first, second);
}

#[test]
fn from_json_reads_both_fields() {
    let d = decode(&sample_body());
    assert_eq!(d.excluded_global_equivalent_domains, Some(vec![1, 2]));
    assert_eq!(
        d.equivalent_domains,
        Some(vec![vec!["a.com".to_string(), "b.com".to_string()]])
    );
}

#[test]
fn from_json_empty_object_has_no_fields() {
    let d = decode(&obj(vec![]));
    assert_eq!(d.excluded_global_equivalent_domains, None);
    assert_eq!(d.equivalent_domains, None);
}

#[test]
fn from_json_null_fields_are_absent() {
    let d = decode(&obj(vec![
        ("equivalentDomains", JsonValue::Null),
        ("excludedGlobalEquivalentDomains", JsonValue::Null),
    ]));
    assert_eq!(d.excluded_global_equivalent_domains, None);
    assert_eq!(d.equivalent_domains, None);
}

#[test]
fn from_json_ignores_unknown_members() {
    let d = decode(&obj(vec![
        ("theme", s("dark")),
        ("excludedGlobalEquivalentDomains", ints(&[7])),
    ]));
    assert_eq!(d.excluded_global_equivalent_domains, Some(vec![7]));
    assert_eq!(d.equivalent_domains, None);
}

#[test]
fn from_json_keeps_duplicates_and_empty_groups() {
    let d = decode(&obj(vec![
        ("equivalentDomains", groups(&[&["x.org", "x.org"], &[], &["x.org", "x.org"]])),
        ("excludedGlobalEquivalentDomains", ints(&[3, 3, 0])),
    ]));
    assert_eq!(d.excluded_global_equivalent_domains, Some(vec![3, 3, 0]));
    let pair = vec!["x.org".to_string(), "x.org".to_string()];
    assert_eq!(d.equivalent_domains, Some(vec![pair.clone(), vec![], pair]));
}

#[test]
fn from_json_accepts_the_i32_bounds() {
    let d = decode(&obj(vec![(
        "excludedGlobalEquivalentDomains",
        ints(&[-2147483648, 2147483647]),
    )]));
    assert_eq!(d.excluded_global_equivalent_domains, Some(vec![i32::MIN, i32::MAX]));
}

#[test]
fn from_json_refuses_string_for_groups() {
    let body = obj(vec![("equivalentDomains", s("a.com"))]);
    assert!(is_bad_request(EquivDomainData::from_json(&body)));
}

#[test]
fn from_json_refuses_flat_list_of_domains() {
    let body = obj(vec![(
        "equivalentDomains",
        JsonValue::Array(vec![s("a.com"), s("b.com")]),
    )]);
    assert!(is_bad_request(EquivDomainData::from_json(&body)));
}

#[test]
fn from_json_refuses_number_in_group() {
    let body = obj(vec![(
        "equivalentDomains",
        JsonValue::Array(vec![JsonValue::Array(vec![s("a.com"), JsonValue::Int(5)])]),
    )]);
    assert!(is_bad_request(EquivDomainData::from_json(&body)));
}

#[test]
fn from_json_refuses_id_out_of_range() {
    let body = obj(vec![("excludedGlobalEquivalentDomains", ints(&[2147483648]))]);
    assert!(is_bad_request(EquivDomainData::from_json(&body)));
    let body = obj(vec![("excludedGlobalEquivalentDomains", ints(&[-2147483649]))]);
    assert!(is_bad_request(EquivDomainData::from_json(&body)));
}

#[test]
fn from_json_refuses_fractional_id() {
    let body = obj(vec![(
        "excludedGlobalEquivalentDomains",
        JsonValue::Array(vec![JsonValue::Fractional("1.5".to_string())]),
    )]);
    assert!(is_bad_request(EquivDomainData::from_json(&body)));
}

#[test]
fn from_json_refuses_string_ids() {
    let body = obj(vec![("excludedGlobalEquivalentDomains", s("1,2"))]);
    assert!(is_bad_request(EquivDomainData::from_json(&body)));
}

#[test]
fn from_json_refuses_duplicate_field() {
    let body = obj(vec![
        ("equivalentDomains", groups(&[&["a.com"]])),
        ("equivalentDomains", groups(&[&["b.com"]])),
    ]);
    assert!(is_bad_request(EquivDomainData::from_json(&body)));
    let body = obj(vec![
        ("excludedGlobalEquivalentDomains", ints(&[1])),
        ("excludedGlobalEquivalentDomains", ints(&[1])),
    ]);
    assert!(is_bad_request(EquivDomainData::from_json(&body)));
}

#[test]
fn from_json_refuses_non_object() {
    assert!(is_bad_request(EquivDomainData::from_json(&JsonValue::Null)));
    assert!(is_bad_request(EquivDomainData::from_json(&groups(&[&["a.com"]]))));
    assert!(is_bad_request(EquivDomainData::from_json(&s("{}"))));
}

#[test]
fn bad_request_message_is_returned() {
    let e = AppError::BadRequest("expected an object".to_string());
    assert_eq!(e.message(), "expected an object".to_string());
}
