//! The WSDL generator: a deterministic, character-exact rendering of the
//! service's schema types, messages, port type, binding and service
//! sections, specified section by section.

use vstd::prelude::*;
use crate::attributes::{ConfigModel, ServiceConfig};
use crate::functions::{OperationModel, SoapOperation};
use crate::text::{concat_map, lemma_concat_map_take_step};
use crate::types::{
    ops_models, spec_field_required, spec_xsd_type, types_models, FieldInfo, FieldModel, TypeInfo,
    TypeModel,
};

verus! {

/// The schema line of one field: an `xsd:element` carrying the wire name,
/// the XSD type, and `minOccurs="0"` exactly when the field is optional.
pub open spec fn spec_schema_field(f: FieldModel) -> Seq<char> {
    "                    <xsd:element name=\""@ + f.xml_name + "\" type=\""@ + spec_xsd_type(f.kind)
        + "\""@ + (if !spec_field_required(f.kind) {
        " minOccurs=\"0\""@
    } else {
        Seq::<char>::empty()
    }) + "/>\n"@
}

/// The schema block of one type: one element declaration and one complex
/// type holding the fields as a sequence, in declaration order.
pub open spec fn spec_schema_type(t: TypeModel) -> Seq<char> {
    "            <xsd:element name=\""@ + t.name + "\" type=\"tns:"@ + t.name
        + "Type\"/>\n            <xsd:complexType name=\""@ + t.name
        + "Type\">\n                <xsd:sequence>\n"@ + concat_map(
        t.fields,
        |f: FieldModel| spec_schema_field(f),
    ) + "                </xsd:sequence>\n            </xsd:complexType>\n"@
}

/// The schema blocks of all catalog types, in catalog order.
pub open spec fn spec_schema_types(cat: Seq<TypeModel>) -> Seq<char> {
    concat_map(cat, |t: TypeModel| spec_schema_type(t))
}

/// The request and response message of one operation, each with a single
/// part referencing the operation's request or response schema element.
pub open spec fn spec_message(op: OperationModel) -> Seq<char> {
    "    <message name=\""@ + op.name
        + "Request\">\n        <part name=\"parameters\" element=\"tns:"@ + op.request_type.name
        + "\"/>\n    </message>\n    \n    <message name=\""@ + op.name
        + "Response\">\n        <part name=\"parameters\" element=\"tns:"@ + op.response_type.name
        + "\"/>\n    </message>\n    \n"@
}

/// The message sections of all operations, in declaration order.
pub open spec fn spec_messages(ops: Seq<OperationModel>) -> Seq<char> {
    concat_map(ops, |op: OperationModel| spec_message(op))
}

/// One port type entry: the operation with its input and output messages.
pub open spec fn spec_port_type_op(op: OperationModel) -> Seq<char> {
    "        <operation name=\""@ + op.name + "\">\n            <input message=\"tns:"@ + op.name
        + "Request\"/>\n            <output message=\"tns:"@ + op.name
        + "Response\"/>\n        </operation>\n"@
}

/// The port type: every operation's entry, in declaration order.
pub open spec fn spec_port_type(c: ConfigModel, ops: Seq<OperationModel>) -> Seq<char> {
    "    <portType name=\""@ + c.port_name + "\">\n"@ + concat_map(
        ops,
        |op: OperationModel| spec_port_type_op(op),
    ) + "    </portType>\n"@
}

/// One binding entry: the operation's SOAP action is the namespace, a
/// slash, and the operation name.
pub open spec fn spec_binding_op(c: ConfigModel, op: OperationModel) -> Seq<char> {
    "        <operation name=\""@ + op.name + "\">\n            <soap:operation soapAction=\""@
        + c.namespace + "/"@ + op.name
        + "\"/>\n            <input>\n                <soap:body use=\"literal\"/>\n            </input>\n            <output>\n                <soap:body use=\"literal\"/>\n            </output>\n        </operation>\n"@
}

/// The document-literal SOAP 1.1 binding over all operations.
pub open spec fn spec_binding(c: ConfigModel, ops: Seq<OperationModel>) -> Seq<char> {
    "    <binding name=\""@ + c.service_name + "Binding\" type=\"tns:"@ + c.port_name
        + "\">\n        <soap:binding style=\"document\" transport=\"http://schemas.xmlsoap.org/soap/http\"/>\n"@
        + concat_map(ops, |op: OperationModel| spec_binding_op(c, op)) + "    </binding>\n"@
}

/// The service section: a single port whose address exposes the bind path.
pub open spec fn spec_service(c: ConfigModel) -> Seq<char> {
    "    <service name=\""@ + c.service_name + "\">\n        <port name=\""@ + c.port_name
        + "\" binding=\"tns:"@ + c.service_name
        + "Binding\">\n            <soap:address location=\"http://localhost:8080"@ + c.bind_path
        + "\"/>\n        </port>\n    </service>"@
}

/// The complete WSDL document: the XML prologue and `definitions` wrapper
/// around the five sections, every section deterministic in its inputs.
pub open spec fn spec_generate_wsdl(
    c: ConfigModel,
    ops: Seq<OperationModel>,
    cat: Seq<TypeModel>,
) -> Seq<char> {
    "<?xml version=\"1.0\" encoding=\"UTF-8\"?>\n<definitions xmlns=\"http://schemas.xmlsoap.org/wsdl/\"\n             xmlns:soap=\"http://schemas.xmlsoap.org/wsdl/soap/\"\n             xmlns:tns=\""@
        + c.namespace + "\"\n             xmlns:xsd=\"http://www.w3.org/2001/XMLSchema\"\n             targetNamespace=\""@
        + c.namespace + "\"\n             elementFormDefault=\"qualified\">\n\n    <types>\n        <xsd:schema targetNamespace=\""@
        + c.namespace + "\" elementFormDefault=\"qualified\">\n"@ + spec_schema_types(cat)
        + "\n        </xsd:schema>\n    </types>\n\n"@ + spec_messages(ops) + "\n\n"@
        + spec_port_type(c, ops) + "\n\n"@ + spec_binding(c, ops) + "\n\n"@ + spec_service(c)
        + "\n\n</definitions>"@
}

/// Appends one field's schema line.
fn append_schema_field(out: &mut String, f: &FieldInfo)
    ensures
        final(out)@ == old(out)@ + spec_schema_field(f@),
{
    out.append("                    <xsd:element name=\"");
    out.append(f.xml_name.as_str());
    out.append("\" type=\"");
    let ty = f.field_type();
    out.append(ty.as_str());
    out.append("\"");
    if f.optional() {
        out.append(" minOccurs=\"0\"");
    }
    out.append("/>\n");
    assert(out@ =~= old(out)@ + spec_schema_field(f@));
}

/// Appends one type's schema block.
fn append_schema_type(out: &mut String, t: &TypeInfo)
    ensures
        final(out)@ == old(out)@ + spec_schema_type(t@),
{
    out.append("            <xsd:element name=\"");
    out.append(t.name.as_str());
    out.append("\" type=\"tns:");
    out.append(t.name.as_str());
    out.append("Type\"/>\n            <xsd:complexType name=\"");
    out.append(t.name.as_str());
    out.append("Type\">\n                <xsd:sequence>\n");
    let ghost head = out@;
    let ghost f = |fm: FieldModel| spec_schema_field(fm);
    let n = t.fields.len();
    let mut i: usize = 0;
    proof {
        assert(t@.fields.take(0) =~= Seq::<FieldModel>::empty());
        assert(head + concat_map(t@.fields.take(0), f) =~= head);
    }
    while i < n
        invariant
            n == t.fields@.len(),
            0 <= i <= n,
            t@.fields.len() == n,
            f == (|fm: FieldModel| spec_schema_field(fm)),
            out@ == head + concat_map(t@.fields.take(i as int), f),
        decreases n - i,
    {
        proof {
            lemma_concat_map_take_step(t@.fields, f, i as int);
            assert(t@.fields[i as int] == t.fields@[i as int]@);
        }
        append_schema_field(out, &t.fields[i]);
        proof {
            assert(out@ =~= head + concat_map(t@.fields.take(i + 1), f));
        }
        i = i + 1;
    }
    out.append("                </xsd:sequence>\n            </xsd:complexType>\n");
    proof {
        assert(t@.fields.take(n as int) =~= t@.fields);
        assert(out@ =~= old(out)@ + spec_schema_type(t@));
    }
}

/// Writes the XSD schema blocks of every catalog type, in catalog order.
pub fn generate_schema_types(types: &Vec<TypeInfo>) -> (r: String)
    ensures
        r@ == spec_schema_types(types_models(types@)),
{
    let mut out = String::new();
    let ghost cat = types_models(types@);
    let ghost f = |t: TypeModel| spec_schema_type(t);
    let n = types.len();
    let mut i: usize = 0;
    proof {
        assert(cat.take(0) =~= Seq::<TypeModel>::empty());
    }
    while i < n
        invariant
            n == types@.len(),
            cat == types_models(types@),
            0 <= i <= n,
            f == (|t: TypeModel| spec_schema_type(t)),
            out@ == concat_map(cat.take(i as int), f),
        decreases n - i,
    {
        proof {
            lemma_concat_map_take_step(cat, f, i as int);
        }
        append_schema_type(&mut out, &types[i]);
        i = i + 1;
    }
    proof {
        assert(cat.take(n as int) =~= cat);
    }
    out
}

/// Appends one operation's request and response messages.
fn append_message(out: &mut String, op: &SoapOperation)
    ensures
        final(out)@ == old(out)@ + spec_message(op@),
{
    out.append("    <message name=\"");
    out.append(op.name.as_str());
    out.append("Request\">\n        <part name=\"parameters\" element=\"tns:");
    out.append(op.request_type.name.as_str());
    out.append("\"/>\n    </message>\n    \n    <message name=\"");
    out.append(op.name.as_str());
    out.append("Response\">\n        <part name=\"parameters\" element=\"tns:");
    out.append(op.response_type.name.as_str());
    out.append("\"/>\n    </message>\n    \n");
    assert(out@ =~= old(out)@ + spec_message(op@));
}

/// Writes the message definitions of all operations.
pub fn generate_messages(operations: &Vec<SoapOperation>) -> (r: String)
    ensures
        r@ == spec_messages(ops_models(operations@)),
{
    let mut out = String::new();
    let ghost ops = ops_models(operations@);
    let ghost f = |op: OperationModel| spec_message(op);
    let n = operations.len();
    let mut i: usize = 0;
    proof {
        assert(ops.take(0) =~= Seq::<OperationModel>::empty());
    }
    while i < n
        invariant
            n == operations@.len(),
            ops == ops_models(operations@),
            0 <= i <= n,
            f == (|op: OperationModel| spec_message(op)),
            out@ == concat_map(ops.take(i as int), f),
        decreases n - i,
    {
        proof {
            lemma_concat_map_take_step(ops, f, i as int);
        }
        append_message(&mut out, &operations[i]);
        i = i + 1;
    }
    proof {
        assert(ops.take(n as int) =~= ops);
    }
    out
}

/// Writes the port type section.
pub fn generate_port_type(config: &ServiceConfig, operations: &Vec<SoapOperation>) -> (r: String)
    ensures
        r@ == spec_port_type(config@, ops_models(operations@)),
{
    let mut out = String::from_str("    <portType name=\"");
    out.append(config.port_name.as_str());
    out.append("\">\n");
    let ghost head = out@;
    let ghost ops = ops_models(operations@);
    let ghost f = |op: OperationModel| spec_port_type_op(op);
    let n = operations.len();
    let mut i: usize = 0;
    proof {
        assert(ops.take(0) =~= Seq::<OperationModel>::empty());
        assert(head + concat_map(ops.take(0), f) =~= head);
    }
    while i < n
        invariant
            n == operations@.len(),
            ops == ops_models(operations@),
            0 <= i <= n,
            f == (|op: OperationModel| spec_port_type_op(op)),
            out@ == head + concat_map(ops.take(i as int), f),
        decreases n - i,
    {
        proof {
            lemma_concat_map_take_step(ops, f, i as int);
        }
        out.append("        <operation name=\"");
        out.append(operations[i].name.as_str());
        out.append("\">\n            <input message=\"tns:");
        out.append(operations[i].name.as_str());
        out.append("Request\"/>\n            <output message=\"tns:");
        out.append(operations[i].name.as_str());
        out.append("Response\"/>\n        </operation>\n");
        proof {
            assert(out@ =~= head + concat_map(ops.take(i + 1), f));
        }
        i = i + 1;
    }
    out.append("    </portType>\n");
    proof {
        assert(ops.take(n as int) =~= ops);
        assert(out@ =~= spec_port_type(config@, ops));
    }
    out
}

/// Writes the SOAP binding section.
pub fn generate_binding(config: &ServiceConfig, operations: &Vec<SoapOperation>) -> (r: String)
    ensures
        r@ == spec_binding(config@, ops_models(operations@)),
{
    let mut out = String::from_str("    <binding name=\"");
    out.append(config.service_name.as_str());
    out.append("Binding\" type=\"tns:");
    out.append(config.port_name.as_str());
    out.append(
        "\">\n        <soap:binding style=\"document\" transport=\"http://schemas.xmlsoap.org/soap/http\"/>\n",
    );
    let ghost head = out@;
    let ghost c = config@;
    let ghost ops = ops_models(operations@);
    let ghost f = |op: OperationModel| spec_binding_op(c, op);
    let n = operations.len();
    let mut i: usize = 0;
    proof {
        assert(ops.take(0) =~= Seq::<OperationModel>::empty());
        assert(head + concat_map(ops.take(0), f) =~= head);
    }
    while i < n
        invariant
            n == operations@.len(),
            ops == ops_models(operations@),
            c == config@,
            0 <= i <= n,
            f == (|op: OperationModel| spec_binding_op(c, op)),
            out@ == head + concat_map(ops.take(i as int), f),
        decreases n - i,
    {
        proof {
            lemma_concat_map_take_step(ops, f, i as int);
        }
        out.append("        <operation name=\"");
        out.append(operations[i].name.as_str());
        out.append("\">\n            <soap:operation soapAction=\"");
        out.append(config.namespace.as_str());
        out.append("/");
        out.append(operations[i].name.as_str());
        out.append(
            "\"/>\n            <input>\n                <soap:body use=\"literal\"/>\n            </input>\n            <output>\n                <soap:body use=\"literal\"/>\n            </output>\n        </operation>\n",
        );
        proof {
            assert(out@ =~= head + concat_map(ops.take(i + 1), f));
        }
        i = i + 1;
    }
    out.append("    </binding>\n");
    proof {
        assert(ops.take(n as int) =~= ops);
        assert(out@ =~= spec_binding(c, ops));
    }
    out
}

/// Writes the service section.
pub fn generate_service(config: &ServiceConfig) -> (r: String)
    ensures
        r@ == spec_service(config@),
{
    let mut out = String::from_str("    <service name=\"");
    out.append(config.service_name.as_str());
    out.append("\">\n        <port name=\"");
    out.append(config.port_name.as_str());
    out.append("\" binding=\"tns:");
    out.append(config.service_name.as_str());
    out.append("Binding\">\n            <soap:address location=\"http://localhost:8080");
    out.append(config.bind_path.as_str());
    out.append("\"/>\n        </port>\n    </service>");
    assert(out@ =~= spec_service(config@));
    out
}

/// The catalog type name an operation message part refers to.
pub fn extract_type_name(ty: &TypeInfo) -> (r: &str)
    ensures
        r@ == ty@.name,
{
    ty.name.as_str()
}

/// Generates the complete WSDL document for the service. The result is a
/// pure function of the configuration, the operation list, and the type
/// catalog in its given order, so generation is deterministic.
pub fn generate_wsdl(
    config: &ServiceConfig,
    operations: &Vec<SoapOperation>,
    types: &Vec<TypeInfo>,
) -> (r: String)
    ensures
        r@ == spec_generate_wsdl(config@, ops_models(operations@), types_models(types@)),
{
    let schema_types = generate_schema_types(types);
    let messages = generate_messages(operations);
    let port_type = generate_port_type(config, operations);
    let binding = generate_binding(config, operations);
    let service = generate_service(config);
    let mut out = String::from_str(
        "<?xml version=\"1.0\" encoding=\"UTF-8\"?>\n<definitions xmlns=\"http://schemas.xmlsoap.org/wsdl/\"\n             xmlns:soap=\"http://schemas.xmlsoap.org/wsdl/soap/\"\n             xmlns:tns=\"",
    );
    out.append(config.namespace.as_str());
    out.append(
        "\"\n             xmlns:xsd=\"http://www.w3.org/2001/XMLSchema\"\n             targetNamespace=\"",
    );
    out.append(config.namespace.as_str());
    out.append(
        "\"\n             elementFormDefault=\"qualified\">\n\n    <types>\n        <xsd:schema targetNamespace=\"",
    );
    out.append(config.namespace.as_str());
    out.append("\" elementFormDefault=\"qualified\">\n");
    out.append(schema_types.as_str());
    out.append("\n        </xsd:schema>\n    </types>\n\n");
    out.append(messages.as_str());
    out.append("\n\n");
    out.append(port_type.as_str());
    out.append("\n\n");
    out.append(binding.as_str());
    out.append("\n\n");
    out.append(service.as_str());
    out.append("\n\n</definitions>");
    assert(out@ =~= spec_generate_wsdl(config@, ops_models(operations@), types_models(types@)));
    out
}

/// Generation is deterministic: two configurations, operation lists and
/// catalogs with the same models yield character-identical WSDL text.
pub proof fn lemma_generate_wsdl_deterministic(
    c1: ConfigModel,
    ops1: Seq<OperationModel>,
    cat1: Seq<TypeModel>,
    c2: ConfigModel,
    ops2: Seq<OperationModel>,
    cat2: Seq<TypeModel>,
)
    requires
        c1 == c2,
        ops1 == ops2,
        cat1 == cat2,
    ensures
        spec_generate_wsdl(c1, ops1, cat1) == spec_generate_wsdl(c2, ops2, cat2),
{
}

} // verus!
