use soap_service::dispatch::{
    complete_handler_error, complete_success, prepare_request, service, DispatchOutcome,
};
use soap_service::functions::FunctionDef;
use soap_service::serialization::FieldValue;
use soap_service::templates::wsdl_template;
use soap_service::types::{analyze_type, FieldInfo, FieldKind, TypeInfo};
use soap_service::wsdl::{
    generate_binding, generate_messages, generate_port_type, generate_schema_types,
    generate_service, generate_wsdl,
};

fn pair(k: &str, v: &str) -> (String, String) {
    (k.to_string(), v.to_string())
}

fn calc_attrs() -> Vec<(String, String)> {
    vec![
        pair("namespace", "http://ex.com/calc"),
        pair("service_name", "CalcService"),
        pair("port_name", "CalcPort"),
        pair("bind_path", "/soap/calc"),
    ]
}

fn int_field(name: &str) -> FieldInfo {
    FieldInfo::named(name.to_string(), FieldKind::Int32)
}

fn simple_type(name: &str, fields: Vec<FieldInfo>) -> TypeInfo {
    analyze_type(name.to_string(), fields).unwrap()
}

fn calc_defs() -> Vec<FunctionDef> {
    vec![FunctionDef {
        function_name: "add".to_string(),
        request_type: simple_type("AddRequest", vec![int_field("a"), int_field("b")]),
        response_type: simple_type("AddResponse", vec![int_field("sum")]),
        is_public: true,
        is_async: true,
    }]
}

fn count(haystack: &str, needle: &str) -> usize {
    haystack.matches(needle).count()
}

#[test]
fn service_builds_from_attributes_and_functions() {
    let svc = service(&calc_attrs(), &calc_defs()).unwrap();
    assert_eq!(svc.config.service_name, "CalcService");
    assert_eq!(svc.operations.len(), 1);
    assert_eq!(svc.operations[0].name, "Add");
    assert_eq!(svc.types.len(), 2);
    assert!(!svc.wsdl_document().is_empty());
}

#[test]
fn service_rejects_bad_attributes() {
    let err = service(&vec![pair("namespace", "nope")], &calc_defs()).unwrap_err();
    assert_eq!(
        err.message(),
        "Namespace must be a valid URI starting with http:// or https://"
    );
}

#[test]
fn wsdl_has_one_service_and_one_port_type_operation() {
    let svc = service(&calc_attrs(), &calc_defs()).unwrap();
    let wsdl = svc.wsdl_document();
    assert_eq!(count(wsdl, "<service name=\"CalcService\">"), 1);
    let port_start = wsdl.find("<portType").unwrap();
    let port_end = wsdl.find("</portType>").unwrap();
    let port_section = &wsdl[port_start..port_end];
    assert_eq!(count(port_section, "<operation name=\"Add\">"), 1);
}

#[test]
fn wsdl_sections_carry_the_configuration() {
    let svc = service(&calc_attrs(), &calc_defs()).unwrap();
    let wsdl = svc.wsdl_document();
    assert!(wsdl.starts_with("<?xml version=\"1.0\" encoding=\"UTF-8\"?>"));
    assert!(wsdl.contains("targetNamespace=\"http://ex.com/calc\""));
    assert!(wsdl.contains("<portType name=\"CalcPort\">"));
    assert!(wsdl.contains("<binding name=\"CalcServiceBinding\" type=\"tns:CalcPort\">"));
    assert!(wsdl.contains("soapAction=\"http://ex.com/calc/Add\""));
    assert!(wsdl.contains("<soap:address location=\"http://localhost:8080/soap/calc\"/>"));
    assert!(wsdl.contains("<message name=\"AddRequest\">"));
    assert!(wsdl.contains("<message name=\"AddResponse\">"));
    assert!(wsdl.ends_with("</definitions>"));
}

#[test]
fn wsdl_schema_lists_fields_in_order() {
    let types = vec![simple_type("AddRequest", vec![int_field("a"), int_field("b")])];
    let schema = generate_schema_types(&types);
    assert!(schema.contains("<xsd:element name=\"AddRequest\" type=\"tns:AddRequestType\"/>"));
    let a = schema.find("<xsd:element name=\"a\" type=\"xsd:int\"/>").unwrap();
    let b = schema.find("<xsd:element name=\"b\" type=\"xsd:int\"/>").unwrap();
    assert!(a < b);
}

#[test]
fn wsdl_schema_marks_optional_fields() {
    let types = vec![simple_type(
        "Query",
        vec![FieldInfo::named(
            "limit".to_string(),
            FieldKind::Optional(Box::new(FieldKind::Int32)),
        )],
    )];
    let schema = generate_schema_types(&types);
    assert!(schema.contains("<xsd:element name=\"limit\" type=\"xsd:int\" minOccurs=\"0\"/>"));
}

#[test]
fn wsdl_generation_is_deterministic() {
    let svc = service(&calc_attrs(), &calc_defs()).unwrap();
    let first = generate_wsdl(&svc.config, &svc.operations, &svc.types);
    let second = generate_wsdl(&svc.config, &svc.operations, &svc.types);
    assert_eq!(first, second);
    assert_eq!(first, svc.wsdl);
}

#[test]
fn wsdl_subgenerators_feed_the_document() {
    let svc = service(&calc_attrs(), &calc_defs()).unwrap();
    let wsdl = svc.wsdl_document();
    assert!(wsdl.contains(&generate_messages(&svc.operations)));
    assert!(wsdl.contains(&generate_port_type(&svc.config, &svc.operations)));
    assert!(wsdl.contains(&generate_binding(&svc.config, &svc.operations)));
    assert!(wsdl.contains(&generate_service(&svc.config)));
}

#[test]
fn wsdl_template_is_a_bare_skeleton() {
    let t = wsdl_template();
    assert!(t.contains("{{namespace}}"));
    assert!(t.contains("</definitions>"));
}

#[test]
fn dispatch_add_two_and_three_gives_five() {
    let svc = service(&calc_attrs(), &calc_defs()).unwrap();
    let envelope = "<?xml version=\"1.0\"?><soap:Envelope><soap:Body><Add><a>2</a><b>3</b></Add></soap:Body></soap:Envelope>";
    let outcome = prepare_request(&svc, envelope);
    let (op_index, request) = match outcome {
        DispatchOutcome::Invoke { op_index, request } => (op_index, request),
        DispatchOutcome::Respond { status, body } => {
            panic!("expected an invocation, got {status}: {body}")
        }
    };
    assert_eq!(op_index, 0);
    let a = match request[0] {
        FieldValue::VInt32(v) => v,
        _ => panic!("expected an integer"),
    };
    let b = match request[1] {
        FieldValue::VInt32(v) => v,
        _ => panic!("expected an integer"),
    };
    let sum = a + b;
    let (status, body) = complete_success(&svc, op_index, &vec![FieldValue::VInt32(sum)]);
    assert_eq!(status, 200);
    assert!(body.contains("<tns:AddResponse>"));
    assert!(body.contains("<sum>5</sum>"));
}

#[test]
fn dispatch_unknown_operation_faults() {
    let svc = service(&calc_attrs(), &calc_defs()).unwrap();
    let envelope = "<soap:Body><Subtract><a>2</a></Subtract></soap:Body>";
    match prepare_request(&svc, envelope) {
        DispatchOutcome::Respond { status, body } => {
            assert_eq!(status, 500);
            assert!(body.contains("<faultstring>Unknown operation: Subtract</faultstring>"));
        }
        DispatchOutcome::Invoke { .. } => panic!("unknown operation must fault"),
    }
}

#[test]
fn dispatch_bad_request_value_faults() {
    let svc = service(&calc_attrs(), &calc_defs()).unwrap();
    let envelope = "<soap:Body><Add><a>notanumber</a><b>3</b></Add></soap:Body>";
    match prepare_request(&svc, envelope) {
        DispatchOutcome::Respond { status, body } => {
            assert_eq!(status, 500);
            let start = body.find("<faultstring>").unwrap() + "<faultstring>".len();
            assert!(body[start..].starts_with("Failed to parse request:"));
        }
        DispatchOutcome::Invoke { .. } => panic!("a bad value must fault"),
    }
}

#[test]
fn dispatch_malformed_envelope_faults() {
    let svc = service(&calc_attrs(), &calc_defs()).unwrap();
    match prepare_request(&svc, "not xml at all") {
        DispatchOutcome::Respond { status, body } => {
            assert_eq!(status, 500);
            assert!(body.contains("<faultstring>SOAP Body start tag not found</faultstring>"));
        }
        DispatchOutcome::Invoke { .. } => panic!("a malformed envelope must fault"),
    }
}

#[test]
fn dispatch_handler_error_faults() {
    let (status, body) = complete_handler_error("Cannot add two zeros");
    assert_eq!(status, 500);
    assert!(body.contains("<faultstring>Operation failed: Cannot add two zeros</faultstring>"));
}

#[test]
fn dispatch_unserializable_response_faults() {
    let svc = service(&calc_attrs(), &calc_defs()).unwrap();
    let (status, body) = complete_success(&svc, 0, &vec![FieldValue::VBool(true)]);
    assert_eq!(status, 500);
    assert!(body.contains(
        "<faultstring>Failed to serialize response: Value does not match type</faultstring>"
    ));
}
