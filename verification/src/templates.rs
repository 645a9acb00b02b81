//! A bare WSDL document skeleton with `{{namespace}}` placeholders.

use vstd::prelude::*;

verus! {

/// The text of the bare WSDL skeleton.
pub open spec fn spec_wsdl_template() -> Seq<char> {
    "<?xml version=\"1.0\" encoding=\"UTF-8\"?>\n<definitions xmlns=\"http://schemas.xmlsoap.org/wsdl/\"\n             xmlns:tns=\"{{namespace}}\"\n             xmlns:soap=\"http://schemas.xmlsoap.org/wsdl/soap/\"\n             xmlns:xsd=\"http://www.w3.org/2001/XMLSchema\"\n             targetNamespace=\"{{namespace}}\">\n</definitions>"@
}

/// Returns the bare WSDL skeleton, with `{{namespace}}` standing where a
/// target namespace is to be substituted.
pub fn wsdl_template() -> (r: &'static str)
    ensures
        r@ == spec_wsdl_template(),
{
    "<?xml version=\"1.0\" encoding=\"UTF-8\"?>\n<definitions xmlns=\"http://schemas.xmlsoap.org/wsdl/\"\n             xmlns:tns=\"{{namespace}}\"\n             xmlns:soap=\"http://schemas.xmlsoap.org/wsdl/soap/\"\n             xmlns:xsd=\"http://www.w3.org/2001/XMLSchema\"\n             targetNamespace=\"{{namespace}}\">\n</definitions>"
}

} // verus!
