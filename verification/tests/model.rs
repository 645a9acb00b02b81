use soap_service::attributes::{
    parse_service_attributes, validate_bind_path, validate_identifier, validate_namespace,
};
use soap_service::functions::{
    extract_soap_operations, generate_operation_name, is_valid_soap_function, parse_soap_function,
    FunctionDef,
};
use soap_service::types::{
    analyze_type, collect_types_from_operations, FieldInfo, FieldKind, TypeInfo,
};

fn pair(k: &str, v: &str) -> (String, String) {
    (k.to_string(), v.to_string())
}

fn int_field(name: &str) -> FieldInfo {
    FieldInfo::named(name.to_string(), FieldKind::Int32)
}

fn simple_type(name: &str, fields: Vec<FieldInfo>) -> TypeInfo {
    analyze_type(name.to_string(), fields).expect("type name should be a valid identifier")
}

#[test]
fn operation_name_capitalizes_single_word() {
    assert_eq!(generate_operation_name("add"), "Add");
}

#[test]
fn operation_name_capitalizes_each_segment() {
    assert_eq!(generate_operation_name("multiply_numbers"), "MultiplyNumbers");
}

#[test]
fn operation_name_keeps_inner_capitals() {
    assert_eq!(generate_operation_name("get_HTTPStatus"), "GetHTTPStatus");
}

#[test]
fn operation_name_drops_extra_underscores() {
    assert_eq!(generate_operation_name("a__b_"), "AB");
    assert_eq!(generate_operation_name("_leading"), "Leading");
}

#[test]
fn operation_name_is_deterministic() {
    assert_eq!(
        generate_operation_name("concat_words"),
        generate_operation_name("concat_words")
    );
}

#[test]
fn namespace_must_be_http_uri() {
    assert!(validate_namespace("http://example.com/calc").is_ok());
    assert!(validate_namespace("https://example.com").is_ok());
    let err = validate_namespace("").unwrap_err();
    assert_eq!(err.message(), "Namespace cannot be empty");
    let err = validate_namespace("ftp://example.com").unwrap_err();
    assert_eq!(
        err.message(),
        "Namespace must be a valid URI starting with http:// or https://"
    );
}

#[test]
fn identifier_rules() {
    assert!(validate_identifier("CalcService", "service_name").is_ok());
    assert!(validate_identifier("_x9", "service_name").is_ok());
    let err = validate_identifier("", "service_name").unwrap_err();
    assert_eq!(err.message(), "service_name cannot be empty");
    let err = validate_identifier("9abc", "port_name").unwrap_err();
    assert_eq!(err.message(), "port_name must start with a letter or underscore");
    let err = validate_identifier("a-b", "port_name").unwrap_err();
    assert_eq!(
        err.message(),
        "port_name must contain only alphanumeric characters and underscores"
    );
}

#[test]
fn bind_path_rules() {
    assert!(validate_bind_path("/soap/calc").is_ok());
    let err = validate_bind_path("soap").unwrap_err();
    assert_eq!(err.message(), "bind_path must start with '/'");
    let err = validate_bind_path("/").unwrap_err();
    assert_eq!(err.message(), "bind_path cannot be just '/'");
}

#[test]
fn attributes_parse_into_config() {
    let attrs = vec![
        pair("namespace", "http://ex.com/calc"),
        pair("service_name", "CalcService"),
        pair("port_name", "CalcPort"),
        pair("bind_path", "/soap/calc"),
    ];
    let config = parse_service_attributes(&attrs).unwrap();
    assert_eq!(config.namespace, "http://ex.com/calc");
    assert_eq!(config.service_name, "CalcService");
    assert_eq!(config.port_name, "CalcPort");
    assert_eq!(config.bind_path, "/soap/calc");
}

#[test]
fn attributes_later_value_wins() {
    let attrs = vec![
        pair("namespace", "http://ex.com/a"),
        pair("namespace", "http://ex.com/b"),
        pair("service_name", "S"),
        pair("port_name", "P"),
        pair("bind_path", "/x"),
    ];
    let config = parse_service_attributes(&attrs).unwrap();
    assert_eq!(config.namespace, "http://ex.com/b");
}

#[test]
fn attributes_missing_reported_in_order() {
    let err = parse_service_attributes(&vec![]).unwrap_err();
    assert_eq!(err.message(), "Missing required attribute: namespace");
    let err = parse_service_attributes(&vec![pair("namespace", "http://e.com")]).unwrap_err();
    assert_eq!(err.message(), "Missing required attribute: service_name");
}

#[test]
fn attributes_unknown_rejected() {
    let err = parse_service_attributes(&vec![pair("colour", "blue")]).unwrap_err();
    assert_eq!(err.message(), "Unknown attribute: colour");
}

#[test]
fn attributes_invalid_value_rejected() {
    let err = parse_service_attributes(&vec![pair("namespace", "not-a-uri")]).unwrap_err();
    assert_eq!(
        err.message(),
        "Namespace must be a valid URI starting with http:// or https://"
    );
}

#[test]
fn analyze_type_rejects_invalid_name() {
    let err = analyze_type("not a name".to_string(), vec![]).unwrap_err();
    assert_eq!(err.message(), "Only named types are supported for SOAP operations");
    assert!(analyze_type("AddRequest".to_string(), vec![int_field("a")]).is_ok());
}

#[test]
fn field_wire_name_defaults_and_renames() {
    let f = FieldInfo::named("sum".to_string(), FieldKind::Int32);
    assert_eq!(f.xml_name, "sum");
    assert_eq!(f.field_type(), "xsd:int");
    assert!(!f.optional());
    let g = FieldInfo::renamed("a".to_string(), "Operand1".to_string(), FieldKind::Int64);
    assert_eq!(g.logical_name, "a");
    assert_eq!(g.xml_name, "Operand1");
    assert_eq!(g.field_type(), "xsd:long");
}

#[test]
fn xsd_types_follow_the_table() {
    assert_eq!(FieldKind::Text.xsd_type(), "xsd:string");
    assert_eq!(FieldKind::Int32.xsd_type(), "xsd:int");
    assert_eq!(FieldKind::Int64.xsd_type(), "xsd:long");
    assert_eq!(FieldKind::Float32.xsd_type(), "xsd:float");
    assert_eq!(FieldKind::Float64.xsd_type(), "xsd:double");
    assert_eq!(FieldKind::Boolean.xsd_type(), "xsd:boolean");
    assert_eq!(
        FieldKind::Custom("Money".to_string()).xsd_type(),
        "tns:MoneyType"
    );
    let opt = FieldKind::Optional(Box::new(FieldKind::Text));
    assert_eq!(opt.xsd_type(), "xsd:string");
    let f = FieldInfo::named("note".to_string(), opt);
    assert!(f.optional());
}

#[test]
fn soap_function_requires_public_and_async() {
    let req = simple_type("AddRequest", vec![int_field("a")]);
    let resp = simple_type("AddResponse", vec![int_field("sum")]);
    let def = FunctionDef {
        function_name: "add".to_string(),
        request_type: req,
        response_type: resp,
        is_public: true,
        is_async: true,
    };
    assert!(is_valid_soap_function(&def));
    let op = parse_soap_function(&def);
    assert_eq!(op.name, "Add");
    assert_eq!(op.function_name, "add");
    assert_eq!(op.request_type.name, "AddRequest");
    assert_eq!(op.response_type.name, "AddResponse");
}

#[test]
fn extract_skips_private_and_sync_functions() {
    let mk = |name: &str, public: bool, asynchronous: bool| FunctionDef {
        function_name: name.to_string(),
        request_type: simple_type("Req", vec![]),
        response_type: simple_type("Resp", vec![]),
        is_public: public,
        is_async: asynchronous,
    };
    let defs = vec![
        mk("add", true, true),
        mk("helper", false, true),
        mk("blocking", true, false),
        mk("mul_two", true, true),
    ];
    let ops = extract_soap_operations(&defs);
    assert_eq!(ops.len(), 2);
    assert_eq!(ops[0].name, "Add");
    assert_eq!(ops[1].name, "MulTwo");
}

#[test]
fn collect_types_dedups_identical_types() {
    let req = simple_type("AddRequest", vec![int_field("a"), int_field("b")]);
    let resp = simple_type("AddResponse", vec![int_field("sum")]);
    let def = FunctionDef {
        function_name: "add".to_string(),
        request_type: req.duplicate(),
        response_type: resp.duplicate(),
        is_public: true,
        is_async: true,
    };
    let def2 = FunctionDef {
        function_name: "add_again".to_string(),
        request_type: req,
        response_type: resp,
        is_public: true,
        is_async: true,
    };
    let ops = extract_soap_operations(&vec![def, def2]);
    let types = collect_types_from_operations(&ops).unwrap();
    assert_eq!(types.len(), 2);
    assert_eq!(types[0].name, "AddRequest");
    assert_eq!(types[1].name, "AddResponse");
}

#[test]
fn collect_types_rejects_conflicting_definitions() {
    let one = simple_type("Shared", vec![int_field("a")]);
    let other = simple_type("Shared", vec![int_field("b")]);
    let resp = simple_type("Resp", vec![]);
    let defs = vec![
        FunctionDef {
            function_name: "first".to_string(),
            request_type: one,
            response_type: resp.duplicate(),
            is_public: true,
            is_async: true,
        },
        FunctionDef {
            function_name: "second".to_string(),
            request_type: other,
            response_type: resp,
            is_public: true,
            is_async: true,
        },
    ];
    let ops = extract_soap_operations(&defs);
    let err = collect_types_from_operations(&ops).unwrap_err();
    assert_eq!(err.message(), "Conflicting definitions for type: Shared");
}
