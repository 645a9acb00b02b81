//! The SOAP envelope codec: parsing an inbound envelope into its operation
//! name, body fragment and namespace, and building response envelopes.

use vstd::prelude::*;
use crate::attributes::pairs_view;
use crate::text::{
    find_char, find_space, find_sub, first_char_at_or_after, first_occurrence,
    first_space_at_or_after, last_char_of, occurs_at, rfind_char, skip_ws, spec_skip_ws,
};

verus! {

/// An error of the envelope codec: either the envelope could not be
/// parsed, or a response could not be serialized.
#[derive(Debug)]
pub enum SoapError {
    ParseError(String),
    SerializationError(String),
}

/// The mathematical model of a codec error.
#[verifier::ext_equal]
pub enum ErrorModel {
    ParseError(Seq<char>),
    SerializationError(Seq<char>),
}

impl View for SoapError {
    type V = ErrorModel;

    open spec fn view(&self) -> ErrorModel {
        match self {
            SoapError::ParseError(m) => ErrorModel::ParseError(m@),
            SoapError::SerializationError(m) => ErrorModel::SerializationError(m@),
        }
    }
}

impl SoapError {
    /// The human-readable description of the error, naming its category.
    pub fn message(&self) -> (r: String)
        ensures
            match self@ {
                ErrorModel::ParseError(m) => r@ == "Parse error: "@ + m,
                ErrorModel::SerializationError(m) => r@ == "Serialization error: "@ + m,
            },
    {
        match self {
            SoapError::ParseError(m) => {
                let mut out = String::from_str("Parse error: ");
                out.append(m.as_str());
                out
            },
            SoapError::SerializationError(m) => {
                let mut out = String::from_str("Serialization error: ");
                out.append(m.as_str());
                out
            },
        }
    }
}

/// One parsed inbound request: the operation's local name, the operation
/// element's full subtree, the headers (a placeholder, always empty), and
/// the namespace, when one was declared.
#[derive(Debug)]
pub struct SoapRequest {
    pub operation: String,
    pub body: String,
    pub headers: Vec<(String, String)>,
    pub namespace: Option<String>,
}

/// The mathematical model of a parsed request.
#[verifier::ext_equal]
pub struct RequestModel {
    pub operation: Seq<char>,
    pub body: Seq<char>,
    pub headers: Seq<(Seq<char>, Seq<char>)>,
    pub namespace: Option<Seq<char>>,
}

impl View for SoapRequest {
    type V = RequestModel;

    open spec fn view(&self) -> RequestModel {
        RequestModel {
            operation: self.operation@,
            body: self.body@,
            headers: pairs_view(self.headers@),
            namespace: match self.namespace {
                Some(ref s) => Some(s@),
                None => None,
            },
        }
    }
}

/// Where the SOAP Body opens: the position and length of the first of the
/// accepted Body start tags that occurs, tried in the given order.
pub open spec fn spec_body_start(x: Seq<char>) -> Option<(int, int)> {
    match first_occurrence(x, "<soap:Body>"@) {
        Some(p) => Some((p, "<soap:Body>"@.len() as int)),
        None => match first_occurrence(x, "<SOAP-ENV:Body>"@) {
            Some(p) => Some((p, "<SOAP-ENV:Body>"@.len() as int)),
            None => match first_occurrence(x, "<Body>"@) {
                Some(p) => Some((p, "<Body>"@.len() as int)),
                None => None,
            },
        },
    }
}

/// The tag text with a trailing `/` (a self-closing tag) removed.
pub open spec fn strip_self_close(t: Seq<char>) -> Seq<char> {
    if t.len() > 0 && t[t.len() - 1] == '/' {
        t.drop_last()
    } else {
        t
    }
}

/// The first whitespace-separated token of the tag text; the whole text
/// when it holds nothing but whitespace.
pub open spec fn spec_first_token(t: Seq<char>) -> Seq<char> {
    let a = spec_skip_ws(t, 0);
    if a == t.len() {
        t
    } else {
        match first_space_at_or_after(t, a) {
            Some(b) => t.subrange(a, b),
            None => t.subrange(a, t.len() as int),
        }
    }
}

/// The text after the last `:`; the whole text when it has no `:`.
pub open spec fn after_last_colon(t: Seq<char>) -> Seq<char> {
    match last_char_of(t, ':') {
        Some(k) => t.subrange(k + 1, t.len() as int),
        None => t,
    }
}

/// The operation's local name read from the tag text between `<` and `>`:
/// a self-closing slash is stripped, attributes after the first whitespace
/// are dropped, and a namespace prefix up to the last `:` is removed.
pub open spec fn spec_local_name(tc: Seq<char>) -> Seq<char> {
    after_last_colon(spec_first_token(strip_self_close(tc)))
}

/// Where the balanced subtree that starts at `j` ends (one past its last
/// character), scanning with `depth` elements currently open: an opening
/// tag deepens, a closing tag raises, a self-closing tag at depth zero is
/// the whole subtree, and text is passed over. `None` when the text ends
/// before the subtree closes.
pub open spec fn spec_capture(x: Seq<char>, j: int, depth: int) -> Option<int>
    decreases x.len() - j,
{
    if j < 0 || j >= x.len() {
        None
    } else if x[j] != '<' {
        spec_capture(x, j + 1, depth)
    } else {
        match first_char_at_or_after(x, j, '>') {
            None => None,
            Some(g) => {
                if g < j + 1 || g >= x.len() {
                    None
                } else if x[j + 1] == '/' {
                    if depth == 1 {
                        Some(g + 1)
                    } else if depth <= 0 {
                        None
                    } else {
                        spec_capture(x, g + 1, depth - 1)
                    }
                } else if x[g - 1] == '/' {
                    if depth == 0 {
                        Some(g + 1)
                    } else {
                        spec_capture(x, g + 1, depth)
                    }
                } else {
                    spec_capture(x, g + 1, depth + 1)
                }
            },
        }
    }
}

/// The envelope's namespace: the value of a `targetNamespace` attribute
/// when one is closed by a quote, else the value of a default `xmlns`
/// declaration, else nothing.
pub open spec fn spec_extract_namespace(x: Seq<char>) -> Option<Seq<char>> {
    let tn = "targetNamespace=\""@;
    match first_occurrence(x, tn) {
        Some(p) => match first_char_at_or_after(x, p + tn.len(), '"') {
            Some(e) => Some(x.subrange(p + tn.len(), e)),
            None => spec_namespace_fallback(x),
        },
        None => spec_namespace_fallback(x),
    }
}

/// The value of a default `xmlns` declaration, when one is present and
/// closed by a quote.
pub open spec fn spec_namespace_fallback(x: Seq<char>) -> Option<Seq<char>> {
    let xm = "xmlns=\""@;
    match first_occurrence(x, xm) {
        Some(p) => match first_char_at_or_after(x, p + xm.len(), '"') {
            Some(e) => Some(x.subrange(p + xm.len(), e)),
            None => None,
        },
        None => None,
    }
}

/// What parsing an envelope yields: the request model, or the message of
/// the error. The Body must open, its first child must be an element (not
/// a closing tag), the element's tag must close, and its subtree must be
/// balanced; the body fragment is exactly that subtree.
#[verifier::opaque]
pub open spec fn spec_parse_envelope(x: Seq<char>) -> Result<RequestModel, Seq<char>> {
    match spec_body_start(x) {
        None => Err("SOAP Body start tag not found"@),
        Some((p, l)) => {
            let q = spec_skip_ws(x, p + l);
            if q >= x.len() || x[q] != '<' {
                Err("No XML element found"@)
            } else if q + 1 < x.len() && x[q + 1] == '/' {
                Err("No XML element found"@)
            } else {
                match first_char_at_or_after(x, q, '>') {
                    None => Err("Invalid XML: no closing bracket found"@),
                    Some(g) => match spec_capture(x, q, 0) {
                        None => Err("Unbalanced XML in SOAP Body"@),
                        Some(e) => Ok(
                            RequestModel {
                                operation: spec_local_name(x.subrange(q + 1, g)),
                                body: x.subrange(q, e),
                                headers: Seq::empty(),
                                namespace: spec_extract_namespace(x),
                            },
                        ),
                    },
                }
            }
        },
    }
}

/// Finds the Body start tag, trying the accepted spellings in order.
fn find_body_start(xml: &str) -> (r: Option<(usize, usize)>)
    ensures
        match r {
            Some((p, l)) => spec_body_start(xml@) == Some((p as int, l as int)) && p + l
                <= xml@.len(),
            None => spec_body_start(xml@) is None,
        },
{
    match find_sub(xml, "<soap:Body>") {
        Some(p) => {
            let l = "<soap:Body>".unicode_len();
            Some((p, l))
        },
        None => match find_sub(xml, "<SOAP-ENV:Body>") {
            Some(p) => {
                let l = "<SOAP-ENV:Body>".unicode_len();
                Some((p, l))
            },
            None => match find_sub(xml, "<Body>") {
                Some(p) => {
                    let l = "<Body>".unicode_len();
                    Some((p, l))
                },
                None => None,
            },
        },
    }
}

/// Captures the balanced subtree starting at `j`, as `spec_capture` says.
fn capture_subtree(xml: &str, j: usize) -> (r: Option<usize>)
    requires
        j <= xml@.len(),
    ensures
        match r {
            Some(e) => spec_capture(xml@, j as int, 0) == Some(e as int) && j < e <= xml@.len(),
            None => spec_capture(xml@, j as int, 0) is None,
        },
{
    let n = xml.unicode_len();
    let mut pos: usize = j;
    let mut depth: usize = 0;
    while pos < n
        invariant
            n == xml@.len(),
            j <= pos <= n,
            depth >= 0,
            spec_capture(xml@, j as int, 0) == spec_capture(xml@, pos as int, depth as int),
        decreases n - pos,
    {
        let c = xml.get_char(pos);
        if c != '<' {
            pos = pos + 1;
        } else {
            match find_char(xml, pos, '>') {
                None => {
                    return None;
                },
                Some(g) => {
                    assert(g >= pos + 1) by {
                        assert(xml@[pos as int] == '<');
                        assert(xml@[g as int] == '>');
                    }
                    if xml.get_char(pos + 1) == '/' {
                        if depth == 1 {
                            return Some(g + 1);
                        }
                        if depth == 0 {
                            return None;
                        }
                        depth = depth - 1;
                    } else if xml.get_char(g - 1) == '/' {
                        if depth == 0 {
                            return Some(g + 1);
                        }
                    } else {
                        if depth == usize::MAX {
                            proof {
                                lemma_capture_depth_overflow(xml@, g + 1, depth as int + 1);
                            }
                            return None;
                        }
                        depth = depth + 1;
                    }
                    pos = g + 1;
                },
            }
        }
    }
    None
}

/// A scan that has opened more elements than the text has characters left
/// can never close them all.
proof fn lemma_capture_depth_overflow(x: Seq<char>, j: int, depth: int)
    requires
        depth > x.len() - j,
    ensures
        spec_capture(x, j, depth) is None,
    decreases x.len() - j,
{
    if 0 <= j < x.len() {
        if x[j] != '<' {
            lemma_capture_depth_overflow(x, j + 1, depth);
        } else {
            match first_char_at_or_after(x, j, '>') {
                None => {},
                Some(g) => {
                    if g < j + 1 || g >= x.len() {
                    } else if x[j + 1] == '/' {
                        if depth > 1 {
                            lemma_capture_depth_overflow(x, g + 1, depth - 1);
                        }
                    } else if x[g - 1] == '/' {
                        lemma_capture_depth_overflow(x, g + 1, depth);
                    } else {
                        lemma_capture_depth_overflow(x, g + 1, depth + 1);
                    }
                },
            }
        }
    }
}

/// Reads the operation's local name out of the tag text.
fn local_name_of_tag(tc: &str) -> (r: String)
    ensures
        r@ == spec_local_name(tc@),
{
    let n = tc.unicode_len();
    let stripped: &str = if n > 0 && tc.get_char(n - 1) == '/' {
        let s = tc.substring_char(0, n - 1);
        proof {
            assert(s@ =~= strip_self_close(tc@));
        }
        s
    } else {
        proof {
            assert(tc@ == strip_self_close(tc@));
        }
        tc
    };
    let m = stripped.unicode_len();
    let a = skip_ws(stripped, 0);
    let token: &str = if a == m {
        stripped
    } else {
        match find_space(stripped, a) {
            Some(b) => {
                let t = stripped.substring_char(a, b);
                t
            },
            None => {
                let t = stripped.substring_char(a, m);
                t
            },
        }
    };
    assert(token@ == spec_first_token(stripped@));
    let tn = token.unicode_len();
    match rfind_char(token, ':') {
        Some(k) => {
            let local = token.substring_char(k + 1, tn);
            assert(local@ == after_last_colon(token@));
            String::from_str(local)
        },
        None => {
            assert(token@ == after_last_colon(token@));
            String::from_str(token)
        },
    }
}

/// Reads the namespace declared on the envelope, if any.
fn extract_target_namespace(xml: &str) -> (r: Option<String>)
    ensures
        match r {
            Some(ns) => spec_extract_namespace(xml@) == Some(ns@),
            None => spec_extract_namespace(xml@) is None,
        },
{
    let n = xml.unicode_len();
    match find_sub(xml, "targetNamespace=\"") {
        Some(p) => {
            let l = "targetNamespace=\"".unicode_len();
            assert(p + l <= n);
            match find_char(xml, p + l, '"') {
                Some(e) => {
                    let v = xml.substring_char(p + l, e);
                    return Some(String::from_str(v));
                },
                None => {},
            }
        },
        None => {},
    }
    match find_sub(xml, "xmlns=\"") {
        Some(p) => {
            let l = "xmlns=\"".unicode_len();
            assert(p + l <= n);
            match find_char(xml, p + l, '"') {
                Some(e) => {
                    let v = xml.substring_char(p + l, e);
                    Some(String::from_str(v))
                },
                None => None,
            }
        },
        None => None,
    }
}

/// Parses an inbound SOAP envelope, exactly as `spec_parse_envelope`
/// says: on success the request holds the operation's local name, the
/// operation element's balanced subtree as the body, no headers, and the
/// declared namespace, if any; each malformed envelope is rejected with
/// the parse error the specification assigns to it.
pub fn parse_soap_request(xml: &str) -> (r: Result<SoapRequest, SoapError>)
    ensures
        match r {
            Ok(req) => spec_parse_envelope(xml@) == Ok::<_, Seq<char>>(req@) && req@.headers.len()
                == 0,
            Err(e) => e@ is ParseError && spec_parse_envelope(xml@) == Err::<RequestModel, _>(
                e@->ParseError_0,
            ),
        },
{
    proof {
        reveal(spec_parse_envelope);
    }
    let n = xml.unicode_len();
    let (p, l) = match find_body_start(xml) {
        Some(pl) => pl,
        None => {
            return Err(SoapError::ParseError(String::from_str("SOAP Body start tag not found")));
        },
    };
    let q = skip_ws(xml, p + l);
    if q >= n || xml.get_char(q) != '<' {
        return Err(SoapError::ParseError(String::from_str("No XML element found")));
    }
    if q + 1 < n && xml.get_char(q + 1) == '/' {
        return Err(SoapError::ParseError(String::from_str("No XML element found")));
    }
    let g = match find_char(xml, q, '>') {
        Some(g) => g,
        None => {
            return Err(
                SoapError::ParseError(String::from_str("Invalid XML: no closing bracket found")),
            );
        },
    };
    let e = match capture_subtree(xml, q) {
        Some(e) => e,
        None => {
            return Err(SoapError::ParseError(String::from_str("Unbalanced XML in SOAP Body")));
        },
    };
    assert(g >= q + 1) by {
        assert(xml@[q as int] == '<');
        assert(xml@[g as int] == '>');
    }
    let tc = xml.substring_char(q + 1, g);
    let operation = local_name_of_tag(tc);
    let body_str = xml.substring_char(q, e);
    let body = String::from_str(body_str);
    let namespace = extract_target_namespace(xml);
    let req = SoapRequest { operation, body, headers: Vec::new(), namespace };
    proof {
        assert(req@.headers =~= Seq::<(Seq<char>, Seq<char>)>::empty());
        assert(spec_parse_envelope(xml@) == Ok::<_, Seq<char>>(req@)) by {
            assert(req@ =~= spec_parse_envelope(xml@)->Ok_0);
        }
    }
    Ok(req)
}

/// What stripping the root element of a serialized fragment yields: the
/// text between the root's opening tag and its matching closing tag, the
/// empty text for a self-closing root, or the reason the fragment has no
/// such shape.
pub open spec fn spec_extract_inner(x: Seq<char>) -> Result<Seq<char>, Seq<char>> {
    if x.len() == 0 || x[0] != '<' {
        Err("No XML element found"@)
    } else {
        match first_char_at_or_after(x, 0, '>') {
            None => Err("Invalid XML: no closing bracket found"@),
            Some(g) => {
                if g >= 1 && x[g - 1] == '/' {
                    Ok(Seq::empty())
                } else {
                    let close = "</"@ + x.subrange(1, g) + ">"@;
                    if x.len() >= g + 1 + close.len() && x.subrange(
                        x.len() - close.len(),
                        x.len() as int,
                    ) == close {
                        Ok(x.subrange(g + 1, x.len() - close.len()))
                    } else {
                        Err("Mismatched closing tag"@)
                    }
                }
            },
        }
    }
}

/// Strips the root element of a serialized fragment, handing back what it
/// wraps, exactly as `spec_extract_inner` says.
pub fn extract_inner_xml(xml: &str) -> (r: Result<String, SoapError>)
    ensures
        match r {
            Ok(inner) => spec_extract_inner(xml@) == Ok::<_, Seq<char>>(inner@),
            Err(e) => e@ is ParseError && spec_extract_inner(xml@) == Err::<Seq<char>, _>(
                e@->ParseError_0,
            ),
        },
{
    let n = xml.unicode_len();
    if n == 0 || xml.get_char(0) != '<' {
        return Err(SoapError::ParseError(String::from_str("No XML element found")));
    }
    let g = match find_char(xml, 0, '>') {
        Some(g) => g,
        None => {
            return Err(
                SoapError::ParseError(String::from_str("Invalid XML: no closing bracket found")),
            );
        },
    };
    if g >= 1 && xml.get_char(g - 1) == '/' {
        return Ok(String::new());
    }
    assert(g >= 1) by {
        assert(xml@[0] == '<');
        assert(xml@[g as int] == '>');
    }
    let name = xml.substring_char(1, g);
    let mut close = String::from_str("</");
    close.append(name);
    close.append(">");
    proof {
        assert(close@ == "</"@ + xml@.subrange(1, g as int) + ">"@);
    }
    let cl = close.unicode_len();
    if n >= g + 1 && n - (g + 1) >= cl {
        if crate::text::starts_with_at(xml, close.as_str(), n - cl) {
            proof {
                assert(xml@.subrange(xml@.len() - close@.len(), xml@.len() as int) =~= close@);
            }
            let inner = xml.substring_char(g + 1, n - cl);
            return Ok(String::from_str(inner));
        }
        proof {
            assert(xml@.subrange(xml@.len() - close@.len(), xml@.len() as int) != close@);
        }
        return Err(SoapError::ParseError(String::from_str("Mismatched closing tag")));
    }
    return Err(SoapError::ParseError(String::from_str("Mismatched closing tag")));
}

/// The response envelope around a serialized result: the operation's
/// response element, named `{operation}Response` in the `tns` namespace,
/// wraps the fragment inside the SOAP Body.
pub open spec fn spec_soap_response(inner: Seq<char>, op: Seq<char>, ns: Seq<char>) -> Seq<char> {
    "<?xml version=\"1.0\" encoding=\"UTF-8\"?>\n<soap:Envelope xmlns:soap=\"http://schemas.xmlsoap.org/soap/envelope/\"\n               xmlns:tns=\""@
        + ns + "\">\n    <soap:Body>\n        <tns:"@ + op + "Response>\n            "@ + inner
        + "\n        </tns:"@ + op + "Response>\n    </soap:Body>\n</soap:Envelope>"@
}

/// Builds the response envelope for a serialized result: the result's
/// root element is stripped and what it wrapped is placed inside the
/// `{operation}Response` element; a result whose root cannot be stripped
/// is a serialization error.
pub fn create_soap_response(result_xml: &str, operation: &str, namespace: &str) -> (r: Result<
    String,
    SoapError,
>)
    ensures
        match spec_extract_inner(result_xml@) {
            Ok(inner) => r is Ok && r->Ok_0@ == spec_soap_response(
                inner,
                operation@,
                namespace@,
            ),
            Err(m) => r is Err && r->Err_0@ == ErrorModel::SerializationError(m),
        },
{
    let inner = match extract_inner_xml(result_xml) {
        Ok(inner) => inner,
        Err(e) => {
            let msg = match e {
                SoapError::ParseError(m) => m,
                SoapError::SerializationError(m) => m,
            };
            return Err(SoapError::SerializationError(msg));
        },
    };
    let mut out = String::from_str(
        "<?xml version=\"1.0\" encoding=\"UTF-8\"?>\n<soap:Envelope xmlns:soap=\"http://schemas.xmlsoap.org/soap/envelope/\"\n               xmlns:tns=\"",
    );
    out.append(namespace);
    out.append("\">\n    <soap:Body>\n        <tns:");
    out.append(operation);
    out.append("Response>\n            ");
    out.append(inner.as_str());
    out.append("\n        </tns:");
    out.append(operation);
    out.append("Response>\n    </soap:Body>\n</soap:Envelope>");
    assert(out@ =~= spec_soap_response(
        spec_extract_inner(result_xml@)->Ok_0,
        operation@,
        namespace@,
    ));
    Ok(out)
}

} // verus!
