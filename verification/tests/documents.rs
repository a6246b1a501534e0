use plc_mirror::document;
use plc_mirror::json::{Json, JsonObject};
use plc_mirror::models::PlcOperation;

fn operation(op_type: &str) -> PlcOperation {
    PlcOperation {
        op_type: op_type.to_string(),
        rotation_keys: None,
        verification_methods: None,
        also_known_as: None,
        services: None,
        prev: None,
        sig: "s".to_string(),
        signing_key: None,
        recovery_key: None,
        handle: None,
        service: None,
    }
}

fn parse(text: &str) -> Json {
    Json::parse(text).unwrap()
}

#[test]
fn a_full_operation_gives_a_full_document() {
    let mut op = operation("plc_operation");
    op.also_known_as = Some(vec!["at://alice.test".to_string(), "at://b".to_string()]);
    op.verification_methods = Some(parse(r#"{"zeta":"did:key:z2","atproto":"did:key:z1","n":7}"#));
    op.services = Some(parse(
        r#"{"bsky_pds":{"type":"PDS","endpoint":"https://pds.test"},"odd":3,"bare":{}}"#,
    ));
    let doc = document::make_document("did:plc:a", &op);
    assert_eq!(
        doc.to_text(),
        concat_all(&[
            r##"{"@context":["https://www.w3.org/ns/did/v1"],"##,
            r##""alsoKnownAs":["at://alice.test","at://b"],"id":"did:plc:a","##,
            r##""service":[{"id":"#bare","serviceEndpoint":"","type":"Unknown"},"##,
            r##"{"id":"#bsky_pds","serviceEndpoint":"https://pds.test","type":"PDS"}],"##,
            r##""verificationMethod":[{"controller":"did:plc:a","id":"#atproto","##,
            r##""publicKeyMultibase":"did:key:z1","type":"EcdsaSecp256k1VerificationKey2019"},"##,
            r##"{"controller":"did:plc:a","id":"#zeta","##,
            r##""publicKeyMultibase":"did:key:z2","type":"EcdsaSecp256k1VerificationKey2019"}]}"##,
        ])
    );
    assert_eq!(document::handle_or(&doc, "N/A"), "at://alice.test");
    assert_eq!(document::pds_endpoint_or(&doc, "N/A"), "https://pds.test");
}

fn concat_all(parts: &[&str]) -> String {
    let mut out = String::new();
    for part in parts {
        out.push_str(part);
    }
    out
}

#[test]
fn an_operation_of_the_old_form_gives_its_handle_key_and_server() {
    let mut op = operation("create");
    op.signing_key = Some("did:key:zs".to_string());
    op.recovery_key = Some("did:key:zr".to_string());
    op.handle = Some("bob.test".to_string());
    op.service = Some("https://old.test".to_string());
    op.also_known_as = Some(vec!["at://other".to_string()]);
    let doc = document::make_document("did:plc:b", &op);
    assert_eq!(
        doc.to_text(),
        concat_all(&[
            r##"{"@context":["https://www.w3.org/ns/did/v1"],"alsoKnownAs":["bob.test"],"##,
            r##""id":"did:plc:b","service":[{"id":"#atproto_pds","##,
            r##""serviceEndpoint":"https://old.test","type":"AtprotoPersonalDataServer"}],"##,
            r##""verificationMethod":[{"controller":"did:plc:b","id":"#atproto","##,
            r##""publicKeyMultibase":"did:key:zs","type":"EcdsaSecp256k1VerificationKey2019"}]}"##,
        ])
    );
    assert_eq!(document::handle_or(&doc, "N/A"), "bob.test");
    assert_eq!(document::pds_endpoint_or(&doc, "N/A"), "N/A");
}

#[test]
fn an_incomplete_operation_of_the_old_form_gives_no_more_than_its_aliases() {
    let mut op = operation("create");
    op.signing_key = Some("did:key:zs".to_string());
    op.handle = Some("bob.test".to_string());
    op.service = Some("https://old.test".to_string());
    op.services = Some(parse(r#"{"x":{}}"#));
    let doc = document::make_document("did:plc:b", &op);
    assert_eq!(
        doc.to_text(),
        r##"{"@context":["https://www.w3.org/ns/did/v1"],"id":"did:plc:b"}"##
    );
}

#[test]
fn methods_and_services_are_arrays_whatever_is_said_of_them() {
    let empty = r##"{"@context":["https://www.w3.org/ns/did/v1"],"id":"d","service":[],"verificationMethod":[]}"##;
    let op = operation("plc_operation");
    assert_eq!(document::make_document("d", &op).to_text(), empty);
    let mut odd = operation("anything");
    odd.verification_methods = Some(parse("[1]"));
    odd.services = Some(parse("\"none\""));
    assert_eq!(document::make_document("d", &odd).to_text(), empty);
}

#[test]
fn the_first_alias_is_the_handle_only_where_it_is_a_text() {
    assert_eq!(document::handle_or(&parse(r#"{"alsoKnownAs":[]}"#), "-"), "-");
    assert_eq!(document::handle_or(&parse(r#"{"alsoKnownAs":[1,"b"]}"#), "-"), "-");
    assert_eq!(document::handle_or(&parse(r#"{"alsoKnownAs":"a"}"#), "-"), "-");
    assert_eq!(document::handle_or(&parse(r#"[]"#), "-"), "-");
    assert_eq!(document::handle_or(&parse(r#"{"alsoKnownAs":["a","b"]}"#), "-"), "a");
}

#[test]
fn the_first_personal_data_server_counts() {
    let doc = parse(
        r##"{"service":[{"id":"#x","serviceEndpoint":"n"},{"id":"#bsky_pds","serviceEndpoint":"first"},{"id":"#bsky_pds","serviceEndpoint":"second"}]}"##,
    );
    assert_eq!(document::pds_endpoint_or(&doc, "-"), "first");
    let unset = parse(r##"{"service":[{"id":"#bsky_pds"},{"id":"#bsky_pds","serviceEndpoint":"x"}]}"##);
    assert_eq!(document::pds_endpoint_or(&unset, "-"), "-");
}

#[test]
fn json_is_read_and_written() {
    let value = parse(" { \"b\" : [1, true, null, -2.5], \"a\" : \"\\u00e9\" } ");
    assert_eq!(value.to_text(), "{\"a\":\"é\",\"b\":[1,true,null,-2.5]}");
    assert!(Json::parse("{").is_none());
    assert!(Json::parse("").is_none());
    assert!(Json::parse("1 2").is_none());
    assert_eq!(Json::integer(u64::MAX).to_text(), "18446744073709551615");
    assert_eq!(parse("\"t\"").as_text().unwrap(), "t");
    assert!(parse("1").as_text().is_none());
    assert_eq!(parse("[1,2]").as_array().unwrap().len(), 2);
    assert!(parse("{\"k\":1}").get("k").is_some());
    assert!(parse("{\"k\":1}").get("l").is_none());
}

#[test]
fn a_nested_value_reads_back_up_to_the_limit_of_the_reader() {
    let mut deep = Json::Null;
    for _ in 0..127 {
        deep = Json::Array(vec![deep]);
    }
    let text = deep.to_text();
    assert_eq!(Json::parse(&text).unwrap().to_text(), text);
    let deeper = Json::Array(vec![deep]);
    assert!(Json::parse(&deeper.to_text()).is_none());
}

#[test]
fn integers_read_back() {
    for text in ["0", "1", "-1", "-9223372036854775808", "9223372036854775808", "18446744073709551615"] {
        let array = format!("[{}]", text);
        assert_eq!(parse(&array).to_text(), array);
        assert_eq!(parse(&parse(&array).to_text()).to_text(), array);
    }
    let theirs = serde_json::Number::from(7u64);
    assert!(matches!(Json::integer(7), Json::Number(n) if n == theirs));
    let theirs = serde_json::Number::from(u64::MAX);
    assert!(matches!(Json::integer(u64::MAX), Json::Number(n) if n == theirs));
}

#[test]
fn members_are_kept_in_order_and_set_in_place() {
    let object = JsonObject::new()
        .with("b", Json::Null)
        .with("a", Json::Bool(true))
        .with("c", Json::text("x"))
        .with("b", Json::Bool(false));
    assert_eq!(object.len(), 3);
    assert_eq!(object.name_at(0), "a");
    assert_eq!(object.name_at(1), "b");
    assert!(matches!(object.value_at(1), Json::Bool(false)));
    assert!(matches!(object.get("c"), Some(Json::Text(t)) if t == "x"));
    assert!(object.get("d").is_none());
    let copy = Json::Object(object.clone());
    assert_eq!(copy.clone().to_text(), "{\"a\":true,\"b\":false,\"c\":\"x\"}");
}

#[test]
fn an_operation_is_written_as_the_directory_writes_it() {
    let mut op = operation("plc_operation");
    assert_eq!(
        op.to_json().to_text(),
        r#"{"prev":null,"sig":"s","type":"plc_operation"}"#
    );
    op.prev = Some("bafy".to_string());
    op.rotation_keys = Some(vec!["k1".to_string(), "k2".to_string()]);
    op.verification_methods = Some(parse(r#"{"atproto":"k"}"#));
    op.also_known_as = Some(vec![]);
    op.services = Some(parse("{}"));
    op.signing_key = Some("sk".to_string());
    op.recovery_key = Some("rk".to_string());
    op.handle = Some("h".to_string());
    op.service = Some("sv".to_string());
    assert_eq!(
        op.to_json().to_text(),
        concat_all(&[
            r#"{"alsoKnownAs":[],"handle":"h","prev":"bafy","recoveryKey":"rk","#,
            r#""rotationKeys":["k1","k2"],"service":"sv","services":{},"sig":"s","#,
            r#""signingKey":"sk","type":"plc_operation","verificationMethods":{"atproto":"k"}}"#,
        ])
    );
}
