//! The service instance and the dispatcher: one immutable object built at
//! definition time, and the pure request-handling stages around the
//! caller-supplied handler.

use vstd::prelude::*;
use crate::attributes::{
    parse_service_attributes, pairs_view, spec_parse_attrs, empty_acc, DefinitionError,
    ServiceConfig,
};
use crate::envelope::{
    create_soap_response, parse_soap_request, spec_extract_inner, spec_parse_envelope,
    spec_soap_response, SoapError,
};
use crate::faults::{create_soap_fault, spec_soap_fault};
use crate::functions::{
    defs_models, extract_soap_operations, spec_extract_ops, FunctionDef, OperationModel,
    SoapOperation,
};
use crate::serialization::{
    deserialize_from_xml, serialize_to_xml, spec_deserialize, spec_serialize, vals_models,
    values_match, FieldValue,
};
use crate::text::str_eq;
use crate::types::{collect_types_from_operations, ops_models, spec_collect_types, types_models, TypeInfo};
use crate::wsdl::{generate_wsdl, spec_generate_wsdl};

verus! {

/// One SOAP service, built once at definition time and immutable
/// afterwards: its configuration, its operations, its type catalog, and
/// the WSDL text generated from them.
#[derive(Debug)]
pub struct SoapService {
    pub config: ServiceConfig,
    pub operations: Vec<SoapOperation>,
    pub types: Vec<TypeInfo>,
    pub wsdl: String,
}

/// A service is well formed when its WSDL text is exactly what its
/// configuration, operations and catalog generate, and its catalog is
/// exactly what its operations collect.
pub open spec fn service_wf(s: SoapService) -> bool {
    &&& spec_collect_types(ops_models(s.operations@), Seq::empty()) == Ok::<_, Seq<char>>(
        types_models(s.types@),
    )
    &&& s.wsdl@ == spec_generate_wsdl(s.config@, ops_models(s.operations@), types_models(s.types@))
}

/// Builds a service from its attribute pairs and its declared handler
/// functions: the attributes are validated and parsed, the public
/// asynchronous functions become operations, their distinct types are
/// collected, and the WSDL text is generated — all eagerly, so that every
/// definition error prevents the service from being built.
pub fn service(args: &Vec<(String, String)>, defs: &Vec<FunctionDef>) -> (r: Result<
    SoapService,
    DefinitionError,
>)
    ensures
        match r {
            Ok(s) => {
                &&& spec_parse_attrs(pairs_view(args@), empty_acc()) == Ok::<_, Seq<char>>(
                    (s.config@.namespace, s.config@.service_name, s.config@.port_name,
                    s.config@.bind_path),
                )
                &&& ops_models(s.operations@) == spec_extract_ops(defs_models(defs@))
                &&& service_wf(s)
            },
            Err(e) => {
                ||| spec_parse_attrs(pairs_view(args@), empty_acc()) == Err::<
                    (Seq<char>, Seq<char>, Seq<char>, Seq<char>),
                    _,
                >(e.msg@)
                ||| (spec_parse_attrs(pairs_view(args@), empty_acc()) is Ok && spec_collect_types(
                    spec_extract_ops(defs_models(defs@)),
                    Seq::empty(),
                ) == Err::<Seq<crate::types::TypeModel>, _>(e.msg@))
            },
        },
{
    let config = match parse_service_attributes(args) {
        Ok(c) => c,
        Err(e) => {
            return Err(e);
        },
    };
    let operations = extract_soap_operations(defs);
    let types = match collect_types_from_operations(&operations) {
        Ok(t) => t,
        Err(e) => {
            return Err(e);
        },
    };
    let wsdl = generate_wsdl(&config, &operations, &types);
    Ok(SoapService { config, operations, types, wsdl })
}

impl SoapService {
    /// The WSDL document served on the WSDL endpoint, verbatim.
    pub fn wsdl_document(&self) -> (r: &str)
        ensures
            r@ == self.wsdl@,
    {
        self.wsdl.as_str()
    }
}

/// The least index of the operation bearing `name`, if any.
pub open spec fn spec_find_operation(ops: Seq<OperationModel>, name: Seq<char>) -> Option<int> {
    if exists|i: int| 0 <= i < ops.len() && (#[trigger] ops[i]).name == name {
        Some(
            choose|i: int|
                0 <= i < ops.len() && (#[trigger] ops[i]).name == name && forall|j: int|
                    0 <= j < i ==> (#[trigger] ops[j]).name != name,
        )
    } else {
        None
    }
}

/// An operation bearing the name, none bearing it earlier, is the one
/// `spec_find_operation` returns.
pub proof fn lemma_find_operation_is_least(ops: Seq<OperationModel>, name: Seq<char>, i: int)
    requires
        0 <= i < ops.len(),
        ops[i].name == name,
        forall|j: int| 0 <= j < i ==> (#[trigger] ops[j]).name != name,
    ensures
        spec_find_operation(ops, name) == Some(i),
{
    assert(exists|k: int| 0 <= k < ops.len() && (#[trigger] ops[k]).name == name);
    let w = choose|w: int|
        0 <= w < ops.len() && (#[trigger] ops[w]).name == name && forall|j: int|
            0 <= j < w ==> (#[trigger] ops[j]).name != name;
    if w < i {
        assert(ops[w].name != name);
    }
    if i < w {
        assert(ops[i].name != name);
    }
}

/// What the dispatcher decides before the handler runs: either the
/// response is already known (a fault), or the named operation's handler
/// must be invoked on the deserialized request.
#[derive(Debug)]
pub enum DispatchOutcome {
    Invoke { op_index: usize, request: Vec<FieldValue> },
    Respond { status: u16, body: String },
}

/// The fault response around a message: status 500 and the fault
/// envelope.
pub open spec fn spec_fault_response(msg: Seq<char>) -> (u16, Seq<char>) {
    (500u16, spec_soap_fault(msg))
}

/// Decides an inbound request up to the handler call: a malformed
/// envelope faults with the parse error, an unknown operation faults by
/// name, a body the operation's request type cannot read faults with the
/// cause; otherwise the operation's index and its deserialized request
/// are handed out for the handler to run.
/// Finds the operation bearing `name`, by exact, case-sensitive match.
fn find_operation_index(operations: &Vec<SoapOperation>, name: &str) -> (r: Option<usize>)
    ensures
        match r {
            Some(i) => i < operations@.len() && spec_find_operation(
                ops_models(operations@),
                name@,
            ) == Some(i as int),
            None => spec_find_operation(ops_models(operations@), name@) is None,
        },
{
    let n = operations.len();
    let ghost ops = ops_models(operations@);
    let mut i: usize = 0;
    while i < n
        invariant
            n == operations@.len(),
            ops == ops_models(operations@),
            ops.len() == n,
            0 <= i <= n,
            forall|j: int| 0 <= j < i ==> (#[trigger] ops[j]).name != name@,
        decreases n - i,
    {
        if str_eq(operations[i].name.as_str(), name) {
            proof {
                lemma_find_operation_is_least(ops, name@, i as int);
            }
            return Some(i);
        }
        i = i + 1;
    }
    assert(forall|j: int| !(0 <= j < ops.len() && (#[trigger] ops[j]).name == name@));
    None
}

pub fn prepare_request(service: &SoapService, xml: &str) -> (r: DispatchOutcome)
    ensures
        match spec_parse_envelope(xml@) {
            Err(m) => r matches DispatchOutcome::Respond { status, body } && status == 500 && body@
                == spec_soap_fault(m),
            Ok(req) => match spec_find_operation(ops_models(service.operations@), req.operation) {
                None => r matches DispatchOutcome::Respond { status, body } && status == 500
                    && body@ == spec_soap_fault("Unknown operation: "@ + req.operation),
                Some(i) => match spec_deserialize(
                    ops_models(service.operations@)[i].request_type,
                    req.body,
                ) {
                    Err(m) => r matches DispatchOutcome::Respond { status, body } && status == 500
                        && body@ == spec_soap_fault("Failed to parse request: "@ + m),
                    Ok(vals) => r matches DispatchOutcome::Invoke { op_index, request } && op_index
                        == i && vals_models(request@) == vals,
                },
            },
        },
{
    let parsed = match parse_soap_request(xml) {
        Ok(p) => p,
        Err(e) => {
            let msg = match e {
                SoapError::ParseError(m) => m,
                SoapError::SerializationError(m) => m,
            };
            let body = create_soap_fault(msg.as_str());
            return DispatchOutcome::Respond { status: 500, body };
        },
    };
    let i = match find_operation_index(&service.operations, parsed.operation.as_str()) {
        Some(i) => i,
        None => {
            let mut msg = String::from_str("Unknown operation: ");
            msg.append(parsed.operation.as_str());
            let body = create_soap_fault(msg.as_str());
            return DispatchOutcome::Respond { status: 500, body };
        },
    };
    let vals = match deserialize_from_xml(
        &service.operations[i].request_type,
        parsed.body.as_str(),
    ) {
        Ok(vals) => vals,
        Err(e) => {
            let cause = match e {
                SoapError::ParseError(m) => m,
                SoapError::SerializationError(m) => m,
            };
            let mut msg = String::from_str("Failed to parse request: ");
            msg.append(cause.as_str());
            let body = create_soap_fault(msg.as_str());
            return DispatchOutcome::Respond { status: 500, body };
        },
    };
    DispatchOutcome::Invoke { op_index: i, request: vals }
}

/// Builds the response after the handler succeeded: the handler's typed
/// response is serialized by the operation's response type and wrapped in
/// the response envelope with status 200; a response the type cannot
/// serialize faults with the cause.
pub fn complete_success(service: &SoapService, op_index: usize, response: &Vec<FieldValue>) -> (r: (
    u16,
    String,
))
    requires
        op_index < service.operations@.len(),
    ensures
        ({
            let op = ops_models(service.operations@)[op_index as int];
            if !values_match(vals_models(response@), op.response_type.fields) {
                r.0 == 500 && r.1@ == spec_soap_fault(
                    "Failed to serialize response: "@ + "Value does not match type"@,
                )
            } else {
                match spec_extract_inner(spec_serialize(op.response_type, vals_models(response@))) {
                    Err(m) => r.0 == 500 && r.1@ == spec_soap_fault(
                        "Failed to serialize response: "@ + m,
                    ),
                    Ok(inner) => r.0 == 200 && r.1@ == spec_soap_response(
                        inner,
                        op.name,
                        service.config@.namespace,
                    ),
                }
            }
        }),
{
    let op = &service.operations[op_index];
    let serialized = match serialize_to_xml(&op.response_type, response) {
        Ok(s) => s,
        Err(e) => {
            let cause = match e {
                SoapError::ParseError(m) => m,
                SoapError::SerializationError(m) => m,
            };
            let mut msg = String::from_str("Failed to serialize response: ");
            msg.append(cause.as_str());
            let body = create_soap_fault(msg.as_str());
            return (500, body);
        },
    };
    match create_soap_response(
        serialized.as_str(),
        op.name.as_str(),
        service.config.namespace.as_str(),
    ) {
        Ok(envelope) => (200, envelope),
        Err(e) => {
            let cause = match e {
                SoapError::ParseError(m) => m,
                SoapError::SerializationError(m) => m,
            };
            let mut msg = String::from_str("Failed to serialize response: ");
            msg.append(cause.as_str());
            let body = create_soap_fault(msg.as_str());
            (500, body)
        },
    }
}

/// Builds the response after the handler reported a domain error: a fault
/// naming the operation failure, with status 500.
pub fn complete_handler_error(error: &str) -> (r: (u16, String))
    ensures
        r.0 == 500,
        r.1@ == spec_soap_fault("Operation failed: "@ + error@),
{
    let mut msg = String::from_str("Operation failed: ");
    msg.append(error);
    let body = create_soap_fault(msg.as_str());
    (500, body)
}

} // verus!
