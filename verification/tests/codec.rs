use soap_service::envelope::{
    create_soap_response, extract_inner_xml, parse_soap_request, SoapError,
};
use soap_service::faults::{create_soap_fault, decode_xml_content, escape_xml};
use soap_service::serialization::{
    deserialize_from_xml, i32_to_string, i64_to_string, parse_i32_str, parse_i64_str,
    serialize_to_xml, u64_to_string, FieldValue,
};
use soap_service::types::{analyze_type, FieldInfo, FieldKind, TypeInfo};

fn parse_error_message(e: SoapError) -> String {
    match e {
        SoapError::ParseError(m) => m,
        SoapError::SerializationError(m) => m,
    }
}

fn add_request_type() -> TypeInfo {
    analyze_type(
        "AddRequest".to_string(),
        vec![
            FieldInfo::named("a".to_string(), FieldKind::Int32),
            FieldInfo::named("b".to_string(), FieldKind::Int32),
        ],
    )
    .unwrap()
}

#[test]
fn escape_encodes_all_five_entities() {
    assert_eq!(escape_xml("a<b>c&d\"e'f"), "a&lt;b&gt;c&amp;d&quot;e&apos;f");
    assert_eq!(escape_xml("plain"), "plain");
}

#[test]
fn decode_undoes_escape() {
    let original = "2 < 3 && 4 > 1 \"quoted\" 'single'";
    assert_eq!(decode_xml_content(&escape_xml(original)), original);
}

#[test]
fn decode_handles_each_entity() {
    assert_eq!(decode_xml_content("&lt;&gt;&amp;&quot;&apos;"), "<>&\"'");
    assert_eq!(decode_xml_content("no entities"), "no entities");
}

#[test]
fn fault_envelope_escapes_message() {
    let fault = create_soap_fault("bad <tag> & more");
    assert!(fault.contains("<faultcode>Server</faultcode>"));
    assert!(fault.contains("<faultstring>bad &lt;tag&gt; &amp; more</faultstring>"));
    assert!(!fault.contains("bad <tag>"));
}

#[test]
fn fault_string_decodes_back_to_message() {
    let message = "a < b > c & d";
    let fault = create_soap_fault(message);
    let start = fault.find("<faultstring>").unwrap() + "<faultstring>".len();
    let end = fault.find("</faultstring>").unwrap();
    assert_eq!(decode_xml_content(&fault[start..end]), message);
}

#[test]
fn parse_finds_soap_prefixed_body() {
    let xml = "<soap:Envelope><soap:Body><Add><a>2</a><b>3</b></Add></soap:Body></soap:Envelope>";
    let req = parse_soap_request(xml).unwrap();
    assert_eq!(req.operation, "Add");
    assert_eq!(req.body, "<Add><a>2</a><b>3</b></Add>");
    assert!(req.headers.is_empty());
    assert!(req.namespace.is_none());
}

#[test]
fn parse_accepts_soap_env_and_plain_body() {
    let xml = "<e><SOAP-ENV:Body><Ping/></SOAP-ENV:Body></e>";
    let req = parse_soap_request(xml).unwrap();
    assert_eq!(req.operation, "Ping");
    assert_eq!(req.body, "<Ping/>");
    let xml = "<e><Body><Go>x</Go></Body></e>";
    let req = parse_soap_request(xml).unwrap();
    assert_eq!(req.operation, "Go");
}

#[test]
fn parse_strips_namespace_prefix_from_operation() {
    let xml = "<soap:Body>  <tns:Multiply><x>4</x></tns:Multiply></soap:Body>";
    let req = parse_soap_request(xml).unwrap();
    assert_eq!(req.operation, "Multiply");
    assert_eq!(req.body, "<tns:Multiply><x>4</x></tns:Multiply>");
}

#[test]
fn parse_captures_nested_same_name_subtree() {
    let xml = "<Body><Node><Node>inner</Node><tail>t</tail></Node></Body>";
    let req = parse_soap_request(xml).unwrap();
    assert_eq!(req.operation, "Node");
    assert_eq!(req.body, "<Node><Node>inner</Node><tail>t</tail></Node>");
}

#[test]
fn parse_missing_body_is_rejected() {
    let err = parse_soap_request("<Envelope>nothing here</Envelope>").unwrap_err();
    assert_eq!(parse_error_message(err), "SOAP Body start tag not found");
}

#[test]
fn parse_empty_body_is_rejected() {
    let err = parse_soap_request("<soap:Body></soap:Body>").unwrap_err();
    assert_eq!(parse_error_message(err), "No XML element found");
}

#[test]
fn parse_unbalanced_body_is_rejected() {
    let err = parse_soap_request("<soap:Body><Add><a>2</a>").unwrap_err();
    assert_eq!(parse_error_message(err), "Unbalanced XML in SOAP Body");
}

#[test]
fn parse_reads_target_namespace() {
    let xml = "<env targetNamespace=\"http://ex.com/a\"><Body><Op/></Body></env>";
    let req = parse_soap_request(xml).unwrap();
    assert_eq!(req.namespace.as_deref(), Some("http://ex.com/a"));
}

#[test]
fn parse_falls_back_to_default_xmlns() {
    let xml = "<env xmlns=\"http://ex.com/b\"><Body><Op/></Body></env>";
    let req = parse_soap_request(xml).unwrap();
    assert_eq!(req.namespace.as_deref(), Some("http://ex.com/b"));
}

#[test]
fn extract_inner_strips_root_element() {
    assert_eq!(
        extract_inner_xml("<AddResponse><sum>5</sum></AddResponse>").unwrap(),
        "<sum>5</sum>"
    );
    assert_eq!(extract_inner_xml("<Empty/>").unwrap(), "");
    let err = extract_inner_xml("no markup").unwrap_err();
    assert_eq!(parse_error_message(err), "No XML element found");
    let err = extract_inner_xml("<A><b>1</b></B>").unwrap_err();
    assert_eq!(parse_error_message(err), "Mismatched closing tag");
}

#[test]
fn response_envelope_wraps_inner_fragment() {
    let envelope =
        create_soap_response("<AddResponse><sum>5</sum></AddResponse>", "Add", "http://ex.com/calc")
            .unwrap();
    assert!(envelope.contains("xmlns:tns=\"http://ex.com/calc\""));
    assert!(envelope.contains("<tns:AddResponse>"));
    assert!(envelope.contains("<sum>5</sum>"));
    assert!(envelope.contains("</tns:AddResponse>"));
}

#[test]
fn integers_write_in_decimal() {
    assert_eq!(u64_to_string(0), "0");
    assert_eq!(u64_to_string(18446744073709551615), "18446744073709551615");
    assert_eq!(i64_to_string(-9223372036854775808), "-9223372036854775808");
    assert_eq!(i32_to_string(-2147483648), "-2147483648");
    assert_eq!(i32_to_string(42), "42");
}

#[test]
fn integers_read_back() {
    assert_eq!(parse_i32_str("2"), Some(2));
    assert_eq!(parse_i32_str("-7"), Some(-7));
    assert_eq!(parse_i32_str("+7"), Some(7));
    assert_eq!(parse_i32_str("notanumber"), None);
    assert_eq!(parse_i32_str(""), None);
    assert_eq!(parse_i32_str("2147483648"), None);
    assert_eq!(parse_i64_str("9223372036854775807"), Some(9223372036854775807));
    assert_eq!(parse_i64_str("-9223372036854775808"), Some(-9223372036854775808));
    assert_eq!(parse_i64_str("9223372036854775808"), None);
    assert_eq!(parse_i64_str("99999999999999999999999"), None);
}

#[test]
fn serialize_writes_fields_in_order() {
    let info = add_request_type();
    let xml =
        serialize_to_xml(&info, &vec![FieldValue::VInt32(2), FieldValue::VInt32(3)]).unwrap();
    assert_eq!(xml, "<AddRequest><a>2</a><b>3</b></AddRequest>");
}

#[test]
fn serialize_escapes_text_values() {
    let info = analyze_type(
        "Note".to_string(),
        vec![FieldInfo::named("text".to_string(), FieldKind::Text)],
    )
    .unwrap();
    let xml = serialize_to_xml(&info, &vec![FieldValue::VText("a<b&c".to_string())]).unwrap();
    assert_eq!(xml, "<Note><text>a&lt;b&amp;c</text></Note>");
}

#[test]
fn serialize_rejects_mismatched_values() {
    let info = add_request_type();
    let err = serialize_to_xml(&info, &vec![FieldValue::VInt32(2)]).unwrap_err();
    assert_eq!(parse_error_message(err), "Value does not match type");
    let err = serialize_to_xml(
        &info,
        &vec![FieldValue::VBool(true), FieldValue::VInt32(3)],
    )
    .unwrap_err();
    assert_eq!(parse_error_message(err), "Value does not match type");
}

#[test]
fn serialize_skips_absent_optional_fields() {
    let info = analyze_type(
        "Query".to_string(),
        vec![
            FieldInfo::named("term".to_string(), FieldKind::Text),
            FieldInfo::named(
                "limit".to_string(),
                FieldKind::Optional(Box::new(FieldKind::Int32)),
            ),
        ],
    )
    .unwrap();
    let xml = serialize_to_xml(
        &info,
        &vec![FieldValue::VText("x".to_string()), FieldValue::VNone],
    )
    .unwrap();
    assert_eq!(xml, "<Query><term>x</term></Query>");
}

#[test]
fn deserialize_reads_typed_fields() {
    let info = add_request_type();
    let vals = deserialize_from_xml(&info, "<Add><a>2</a><b>3</b></Add>").unwrap();
    assert!(matches!(vals[0], FieldValue::VInt32(2)));
    assert!(matches!(vals[1], FieldValue::VInt32(3)));
}

#[test]
fn deserialize_rejects_bad_integer() {
    let info = add_request_type();
    let err = deserialize_from_xml(&info, "<Add><a>notanumber</a><b>3</b></Add>").unwrap_err();
    assert_eq!(parse_error_message(err), "Invalid value for field: a");
}

#[test]
fn deserialize_reports_missing_required_field() {
    let info = add_request_type();
    let err = deserialize_from_xml(&info, "<Add><a>2</a></Add>").unwrap_err();
    assert_eq!(parse_error_message(err), "Missing field: b");
}

#[test]
fn deserialize_allows_absent_optional_field() {
    let info = analyze_type(
        "Query".to_string(),
        vec![
            FieldInfo::named("term".to_string(), FieldKind::Text),
            FieldInfo::named(
                "limit".to_string(),
                FieldKind::Optional(Box::new(FieldKind::Int32)),
            ),
        ],
    )
    .unwrap();
    let vals = deserialize_from_xml(&info, "<Query><term>abc</term></Query>").unwrap();
    assert!(matches!(&vals[0], FieldValue::VText(t) if t == "abc"));
    assert!(matches!(vals[1], FieldValue::VNone));
}

#[test]
fn deserialize_decodes_entities_and_booleans() {
    let info = analyze_type(
        "Mixed".to_string(),
        vec![
            FieldInfo::named("text".to_string(), FieldKind::Text),
            FieldInfo::named("flag".to_string(), FieldKind::Boolean),
        ],
    )
    .unwrap();
    let vals =
        deserialize_from_xml(&info, "<Mixed><text>a&lt;b</text><flag>true</flag></Mixed>").unwrap();
    assert!(matches!(&vals[0], FieldValue::VText(t) if t == "a<b"));
    assert!(matches!(vals[1], FieldValue::VBool(true)));
    let err = deserialize_from_xml(&info, "<Mixed><text>x</text><flag>yes</flag></Mixed>")
        .unwrap_err();
    assert_eq!(parse_error_message(err), "Invalid value for field: flag");
}

#[test]
fn response_round_trips_through_the_codec() {
    let response_type = analyze_type(
        "AddResponse".to_string(),
        vec![FieldInfo::named("sum".to_string(), FieldKind::Int32)],
    )
    .unwrap();
    let serialized =
        serialize_to_xml(&response_type, &vec![FieldValue::VInt32(5)]).unwrap();
    let envelope = create_soap_response(&serialized, "Add", "http://ex.com/calc").unwrap();
    let parsed = parse_soap_request(&envelope).unwrap();
    assert_eq!(parsed.operation, "AddResponse");
    let values = deserialize_from_xml(&response_type, &parsed.body).unwrap();
    assert!(matches!(values[0], FieldValue::VInt32(5)));
}

#[test]
fn response_with_absent_optional_round_trips() {
    let response_type = analyze_type(
        "LookupResponse".to_string(),
        vec![
            FieldInfo::named("hits".to_string(), FieldKind::Int32),
            FieldInfo::named(
                "cursor".to_string(),
                FieldKind::Optional(Box::new(FieldKind::Text)),
            ),
        ],
    )
    .unwrap();
    let values = vec![FieldValue::VInt32(7), FieldValue::VNone];
    let serialized = serialize_to_xml(&response_type, &values).unwrap();
    let envelope = create_soap_response(&serialized, "Lookup", "http://ex.com/q").unwrap();
    let parsed = parse_soap_request(&envelope).unwrap();
    assert_eq!(parsed.operation, "LookupResponse");
    let back = deserialize_from_xml(&response_type, &parsed.body).unwrap();
    assert!(matches!(back[0], FieldValue::VInt32(7)));
    assert!(matches!(back[1], FieldValue::VNone));
}

#[test]
fn error_messages_name_their_category() {
    let e = SoapError::ParseError("oops".to_string());
    assert_eq!(e.message(), "Parse error: oops");
    let e = SoapError::SerializationError("bad".to_string());
    assert_eq!(e.message(), "Serialization error: bad");
}
