//! The codec round trip: a serialized response, wrapped in its response
//! envelope, parses back to the operation that produced it and to a body
//! fragment that deserializes to the original value.

use vstd::prelude::*;
use crate::attributes::{is_ident_char, spec_valid_identifier};
use crate::envelope::{
    spec_body_start, spec_capture, spec_extract_inner, spec_local_name, spec_parse_envelope,
    spec_soap_response,
};
use crate::serialization::{
    distinct_wire_names, spec_field_xml, spec_fields_xml, spec_lexical, spec_serialize,
    value_matches, value_simple, values_match, values_not_raw, wire_names_identifiers, ValueModel,
};
use crate::text::{
    lemma_first_char_is_least, lemma_first_occurrence_is_least, lemma_first_space_none,
    lemma_last_char_is_greatest, lemma_skip_ws_is_least, occurs_at, spec_skip_ws,
};
use crate::types::{FieldModel, TypeModel};

verus! {

/// Scanning text that holds no `<` leaves the capture state unchanged.
proof fn lemma_capture_text(x: Seq<char>, j: int, j2: int, depth: int)
    requires
        0 <= j <= j2 <= x.len(),
        forall|m: int| j <= m < j2 ==> x[m] != '<',
    ensures
        spec_capture(x, j, depth) == spec_capture(x, j2, depth),
    decreases j2 - j,
{
    if j < j2 {
        assert(x[j] != '<');
        lemma_capture_text(x, j + 1, j2, depth);
    }
}

/// Scanning an opening tag, whose `>` stands at `g`, deepens the capture
/// by one and goes on after the tag.
proof fn lemma_capture_tag_open(x: Seq<char>, j: int, g: int, depth: int)
    requires
        0 <= j < g < x.len(),
        x[j] == '<',
        x[g] == '>',
        forall|m: int| j <= m < g ==> x[m] != '>',
        x[j + 1] != '/',
        x[g - 1] != '/',
    ensures
        spec_capture(x, j, depth) == spec_capture(x, g + 1, depth + 1),
{
    lemma_first_char_is_least(x, j, '>', g);
}

/// Scanning a closing tag, whose `>` stands at `g`, either ends the
/// capture — when exactly one element was open — or raises it by one.
proof fn lemma_capture_tag_close(x: Seq<char>, j: int, g: int, depth: int)
    requires
        0 <= j < g < x.len(),
        j + 1 < x.len(),
        x[j] == '<',
        x[j + 1] == '/',
        x[g] == '>',
        forall|m: int| j <= m < g ==> x[m] != '>',
        depth >= 1,
    ensures
        depth == 1 ==> spec_capture(x, j, depth) == Some(g + 1),
        depth > 1 ==> spec_capture(x, j, depth) == spec_capture(x, g + 1, depth - 1),
{
    lemma_first_char_is_least(x, j, '>', g);
}

/// Scanning the serialized elements of the fields leaves the capture
/// state where it stood: each element opens and closes in turn.
#[verifier::rlimit(100)]
proof fn lemma_capture_fields(
    x: Seq<char>,
    fields: Seq<FieldModel>,
    vs: Seq<ValueModel>,
    j: int,
    depth: int,
)
    requires
        fields.len() == vs.len(),
        values_match(vs, fields),
        values_not_raw(vs),
        wire_names_identifiers(fields),
        depth >= 1,
        0 <= j,
        j + spec_fields_xml(fields, vs).len() <= x.len(),
        x.subrange(j, j + spec_fields_xml(fields, vs).len()) == spec_fields_xml(fields, vs),
    ensures
        spec_capture(x, j, depth) == spec_capture(x, j + spec_fields_xml(fields, vs).len(), depth),
    decreases fields.len(),
{
    reveal_strlit("<");
    reveal_strlit(">");
    reveal_strlit("</");
    if fields.len() > 0 {
        let f = fields[0];
        let v = vs[0];
        let body = spec_fields_xml(fields, vs);
        let fx = spec_field_xml(f, v);
        let rest_body = spec_fields_xml(fields.drop_first(), vs.drop_first());
        assert(body == fx + rest_body);
        assert(forall|i: int|
            0 <= i < vs.drop_first().len() ==> !((#[trigger] vs.drop_first()[i]) is VRaw)
                && value_matches(vs.drop_first()[i], fields.drop_first()[i].kind)
                && spec_valid_identifier(fields.drop_first()[i].xml_name));
        if v is VNone {
            // An absent field writes nothing; the scan state is untouched.
            assert(fx =~= Seq::<char>::empty());
            assert(body =~= rest_body);
            lemma_capture_fields(x, fields.drop_first(), vs.drop_first(), j, depth);
            return ;
        }
        let name = f.xml_name;
        let open = "<"@ + name + ">"@;
        let lex = spec_lexical(v);
        let close = "</"@ + name + ">"@;
        assert(value_simple(v));
        assert(fx =~= open + lex + close);
        assert(body.len() == fx.len() + rest_body.len());
        assert forall|idx: int| 0 <= idx < body.len() implies x[j + idx] == body[idx] by {
            assert(x.subrange(j, j + body.len())[idx] == x[j + idx]);
        }
        assert(spec_valid_identifier(name));
        // The opening tag.
        let g1 = j + name.len() + 1;
        assert(x[j] == '<') by {
            assert(body[0] == fx[0]);
            assert(fx[0] == open[0]);
        }
        assert(x[g1] == '>') by {
            assert(body[g1 - j] == fx[g1 - j]);
            assert(fx[name.len() as int + 1] == open[name.len() as int + 1]);
        }
        assert forall|m: int| j <= m < g1 implies x[m] != '>' by {
            assert(body[m - j] == fx[m - j]);
            assert(fx[m - j] == open[m - j]);
            if m > j {
                assert(open[m - j] == name[m - j - 1]);
                assert(is_ident_char(name[m - j - 1]));
            }
        }
        assert(x[j + 1] != '/') by {
            assert(body[1] == fx[1]);
            assert(fx[1] == open[1]);
            assert(open[1] == name[0]);
            assert(is_ident_char(name[0]));
        }
        assert(x[g1 - 1] != '/') by {
            assert(body[g1 - 1 - j] == fx[g1 - 1 - j]);
            assert(fx[g1 - 1 - j] == open[g1 - 1 - j]);
            assert(open[name.len() as int] == name[name.len() as int - 1]);
            assert(is_ident_char(name[name.len() - 1]));
        }
        lemma_capture_tag_open(x, j, g1, depth);
        // The content, which holds no markup.
        let cs = g1 + 1;
        let ct = cs + lex.len();
        crate::serialization::lemma_lexical_no_markup(v);
        assert forall|m: int| cs <= m < ct implies x[m] != '<' by {
            assert(body[m - j] == fx[m - j]);
            assert(fx[m - j] == lex[m - j - open.len()]);
        }
        lemma_capture_text(x, cs, ct, depth + 1);
        // The closing tag.
        let g2 = ct + name.len() + 2;
        assert(x[ct] == '<' && x[ct + 1] == '/') by {
            assert(body[ct - j] == fx[ct - j]);
            assert(fx[ct - j] == close[0]);
            assert(body[ct + 1 - j] == fx[ct + 1 - j]);
            assert(fx[ct + 1 - j] == close[1]);
        }
        assert(x[g2] == '>') by {
            assert(body[g2 - j] == fx[g2 - j]);
            assert(fx[g2 - j] == close[name.len() as int + 2]);
        }
        assert forall|m: int| ct <= m < g2 implies x[m] != '>' by {
            assert(body[m - j] == fx[m - j]);
            assert(fx[m - j] == close[m - ct]);
            if m - ct >= 2 {
                assert(close[m - ct] == name[m - ct - 2]);
                assert(is_ident_char(name[m - ct - 2]));
            }
        }
        lemma_capture_tag_close(x, ct, g2, depth + 1);
        assert(g2 + 1 == j + fx.len());
        // The remaining fields, which stand right after.
        assert forall|idx: int| 0 <= idx < rest_body.len() implies x[j + fx.len() + idx]
            == rest_body[idx] by {
            assert(body[fx.len() + idx] == rest_body[idx]);
        }
        assert(x.subrange(j + fx.len(), j + fx.len() + rest_body.len()) =~= rest_body);
        lemma_capture_fields(x, fields.drop_first(), vs.drop_first(), j + fx.len(), depth);
    }
}

/// Stripping the root of a serialized value hands back exactly the
/// fields' elements.
#[verifier::rlimit(100)]
pub proof fn lemma_extract_inner_serialize(t: TypeModel, vs: Seq<ValueModel>)
    requires
        spec_valid_identifier(t.name),
    ensures
        spec_extract_inner(spec_serialize(t, vs)) == Ok::<_, Seq<char>>(
            spec_fields_xml(t.fields, vs),
        ),
{
    reveal_strlit("<");
    reveal_strlit(">");
    reveal_strlit("</");
    let name = t.name;
    let body = spec_fields_xml(t.fields, vs);
    let x = spec_serialize(t, vs);
    let close = "</"@ + name + ">"@;
    assert(x =~= ("<"@ + name + ">"@) + body + close);
    assert(x.len() == name.len() + 2 + body.len() + close.len());
    assert(x[0] == '<');
    let g: int = name.len() as int + 1;
    assert(x[g] == '>');
    assert forall|m: int| 0 <= m < g implies x[m] != '>' by {
        if m > 0 {
            assert(x[m] == name[m - 1]);
            assert(is_ident_char(name[m - 1]));
        }
    }
    lemma_first_char_is_least(x, 0, '>', g);
    assert(x[g - 1] != '/') by {
        if name.len() > 0 {
            assert(x[g - 1] == name[name.len() - 1]);
            assert(is_ident_char(name[name.len() - 1]));
        }
    }
    assert(x.subrange(1, g) =~= name);
    assert(x.subrange(x.len() - close.len(), x.len() as int) =~= close);
    assert(x.subrange(g + 1, x.len() - close.len()) =~= body);
}

/// The operation element of a response envelope: the `tns:{op}Response`
/// element with the serialized fields inside.
pub open spec fn spec_response_element(inner: Seq<char>, op: Seq<char>) -> Seq<char> {
    "<tns:"@ + op + "Response>\n            "@ + inner + "\n        </tns:"@ + op + "Response>"@
}

/// No `<` stands anywhere in `s`.
pub open spec fn no_lt(s: Seq<char>) -> bool {
    forall|i: int| 0 <= i < s.len() ==> s[i] != '<'
}

/// The SOAP Body of the response envelope opens at its fixed place: no
/// earlier text — the prologue, the namespace, the whitespace — holds a
/// Body start tag.
#[verifier::rlimit(100)]
proof fn lemma_response_body_start(inner: Seq<char>, op: Seq<char>, ns: Seq<char>)
    requires
        no_lt(ns),
    ensures
        ({
            let env = spec_soap_response(inner, op, ns);
            let h1 = "<?xml version=\"1.0\" encoding=\"UTF-8\"?>\n<soap:Envelope xmlns:soap=\"http://schemas.xmlsoap.org/soap/envelope/\"\n               xmlns:tns=\""@;
            spec_body_start(env) == Some(
                (h1.len() as int + ns.len() + 7, "<soap:Body>"@.len() as int),
            )
        }),
{
    let h1 = "<?xml version=\"1.0\" encoding=\"UTF-8\"?>\n<soap:Envelope xmlns:soap=\"http://schemas.xmlsoap.org/soap/envelope/\"\n               xmlns:tns=\""@;
    let h2 = "\">\n    <soap:Body>\n        <tns:"@;
    let h3 = "Response>\n            "@;
    let h4 = "\n        </tns:"@;
    let h5 = "Response>\n    </soap:Body>\n</soap:Envelope>"@;
    let env = spec_soap_response(inner, op, ns);
    let pat = "<soap:Body>"@;
    reveal_strlit("<?xml version=\"1.0\" encoding=\"UTF-8\"?>\n<soap:Envelope xmlns:soap=\"http://schemas.xmlsoap.org/soap/envelope/\"\n               xmlns:tns=\"");
    reveal_strlit("\">\n    <soap:Body>\n        <tns:");
    reveal_strlit("<soap:Body>");
    assert(env =~= h1 + ns + h2 + op + h3 + inner + h4 + op + h5);
    let b1 = h1.len() as int;
    let b2 = b1 + ns.len();
    let p = b2 + 7;
    assert(pat.len() == 11);
    assert(h1.len() == 135);
    assert forall|k: int| 0 <= k < b1 implies env[k] == h1[k] by {}
    assert forall|k: int| 0 <= k < ns.len() implies env[b1 + k] == ns[k] by {}
    assert forall|k: int| 0 <= k < 32 implies env[b2 + k] == h2[k] by {}
    // The Body start tag stands inside the literal after the namespace.
    assert forall|k: int| 0 <= k < 11 implies h2[7 + k] == pat[k] by {}
    assert(env.subrange(p, p + 11) =~= pat);
    assert(occurs_at(env, pat, p));
    // Nothing earlier is one: the prologue holds no `B` at the right
    // offset, its tail and the namespace hold no `<` at all.
    assert(forall|j: int| 0 <= j < h1.len() ==> h1[j] != 'B');
    assert(forall|j: int| b1 - 6 <= j < b1 ==> h1[j] != '<');
    assert(forall|j: int| 0 <= j < 7 ==> h2[j] != '<');
    assert forall|m: int| 0 <= m < p implies !occurs_at(env, pat, m) by {
        if occurs_at(env, pat, m) {
            assert(env.subrange(m, m + 11)[0] == env[m]);
            assert(env.subrange(m, m + 11)[6] == env[m + 6]);
            assert(env[m] == pat[0]);
            assert(env[m + 6] == pat[6]);
            assert(pat[0] == '<' && pat[6] == 'B');
            if m < b1 {
                if m + 6 < b1 {
                    assert(env[m + 6] == h1[m + 6]);
                } else {
                    assert(env[m] == h1[m]);
                }
            } else if m < b2 {
                assert(env[m] == ns[m - b1]);
            } else {
                assert(env[m] == h2[m - b2]);
            }
        }
    }
    lemma_first_occurrence_is_least(env, pat, p);
}

/// The local name read from a `tns:`-prefixed response tag is the
/// operation name with its `Response` suffix.
proof fn lemma_local_name_tns(op: Seq<char>)
    requires
        spec_valid_identifier(op),
    ensures
        spec_local_name("tns:"@ + op + "Response"@) == op + "Response"@,
{
    reveal_strlit("tns:");
    reveal_strlit("Response");
    let tc = "tns:"@ + op + "Response"@;
    assert(tc.len() == op.len() + 12);
    assert(tc[tc.len() - 1] == 'e');
    assert(crate::envelope::strip_self_close(tc) == tc);
    assert(tc[0] == 't');
    assert(!crate::text::is_space('t'));
    lemma_skip_ws_is_least(tc, 0, 0);
    assert forall|m: int| 0 <= m < tc.len() implies !crate::text::is_space(tc[m]) by {
        if 4 <= m < 4 + op.len() {
            assert(tc[m] == op[m - 4]);
            assert(is_ident_char(op[m - 4]));
        }
    }
    lemma_first_space_none(tc, 0);
    assert(crate::envelope::spec_first_token(tc) == tc.subrange(0, tc.len() as int));
    assert(tc.subrange(0, tc.len() as int) =~= tc);
    assert(tc[3] == ':');
    assert forall|m: int| 3 < m < tc.len() implies tc[m] != ':' by {
        if 4 <= m < 4 + op.len() {
            assert(tc[m] == op[m - 4]);
            assert(is_ident_char(op[m - 4]));
        }
    }
    lemma_last_char_is_greatest(tc, ':', 3);
    assert(crate::envelope::after_last_colon(tc) == tc.subrange(4, tc.len() as int));
    assert(tc.subrange(4, tc.len() as int) =~= op + "Response"@);
}

/// The capture of the response element: the root response tag opens, the
/// fields' elements balance out, and the root's closing tag ends the
/// subtree exactly at its `>`.
#[verifier::rlimit(100)]
proof fn lemma_response_capture(
    fields: Seq<FieldModel>,
    vs: Seq<ValueModel>,
    op: Seq<char>,
    ns: Seq<char>,
)
    requires
        fields.len() == vs.len(),
        values_match(vs, fields),
        values_not_raw(vs),
        wire_names_identifiers(fields),
        spec_valid_identifier(op),
    ensures
        ({
            let inner = spec_fields_xml(fields, vs);
            let env = spec_soap_response(inner, op, ns);
            let h1 = "<?xml version=\"1.0\" encoding=\"UTF-8\"?>\n<soap:Envelope xmlns:soap=\"http://schemas.xmlsoap.org/soap/envelope/\"\n               xmlns:tns=\""@;
            let q = h1.len() as int + ns.len() + 27;
            spec_capture(env, q, 0) == Some(q + 5 + op.len() + 22 + inner.len() + 15 + op.len() + 9)
        }),
{
    let h1 = "<?xml version=\"1.0\" encoding=\"UTF-8\"?>\n<soap:Envelope xmlns:soap=\"http://schemas.xmlsoap.org/soap/envelope/\"\n               xmlns:tns=\""@;
    let h2 = "\">\n    <soap:Body>\n        <tns:"@;
    let h3 = "Response>\n            "@;
    let h4 = "\n        </tns:"@;
    let h5 = "Response>\n    </soap:Body>\n</soap:Envelope>"@;
    let inner = spec_fields_xml(fields, vs);
    let env = spec_soap_response(inner, op, ns);
    reveal_strlit("<?xml version=\"1.0\" encoding=\"UTF-8\"?>\n<soap:Envelope xmlns:soap=\"http://schemas.xmlsoap.org/soap/envelope/\"\n               xmlns:tns=\"");
    reveal_strlit("\">\n    <soap:Body>\n        <tns:");
    reveal_strlit("Response>\n            ");
    reveal_strlit("\n        </tns:");
    reveal_strlit("Response>\n    </soap:Body>\n</soap:Envelope>");
    assert(env =~= h1 + ns + h2 + op + h3 + inner + h4 + op + h5);
    let b2 = h1.len() as int + ns.len();
    let q = b2 + 27;
    let b3 = b2 + 32;
    let g = b3 + op.len() + 8;
    let i0 = b3 + op.len() + 22;
    let b4 = i0 + inner.len();
    let ct = b4 + 9;
    let b5 = b4 + 15;
    let b6 = b5 + op.len();
    let g2 = b6 + 8;
    assert(h2.len() == 32 && h3.len() == 22 && h4.len() == 15 && h5.len() == 43);
    assert forall|k: int| 0 <= k < 32 implies env[b2 + k] == h2[k] by {}
    assert forall|k: int| 0 <= k < op.len() implies env[b3 + k] == op[k] by {}
    assert forall|k: int| 0 <= k < 22 implies env[b3 + op.len() + k] == h3[k] by {}
    assert forall|k: int| 0 <= k < inner.len() implies env[i0 + k] == inner[k] by {}
    assert forall|k: int| 0 <= k < 15 implies env[b4 + k] == h4[k] by {}
    assert forall|k: int| 0 <= k < op.len() implies env[b5 + k] == op[k] by {}
    assert forall|k: int| 0 <= k < 43 implies env[b6 + k] == h5[k] by {}
    // The root response tag opens the subtree.
    assert(env[q] == '<' && env[q + 1] == 't');
    assert(env[g] == '>');
    assert forall|m: int| q <= m < g implies env[m] != '>' by {
        if m < b3 {
            assert(env[m] == h2[m - b2]);
        } else if m < b3 + op.len() {
            assert(env[m] == op[m - b3]);
            assert(is_ident_char(op[m - b3]));
        } else {
            assert(env[m] == h3[m - b3 - op.len()]);
        }
    }
    assert(env[g - 1] != '/') by {
        if op.len() > 0 {
            assert(env[g - 1] == h3[7]);
        }
    }
    lemma_capture_tag_open(env, q, g, 0);
    // The whitespace before the fields.
    assert forall|m: int| g + 1 <= m < i0 implies env[m] != '<' by {
        assert(env[m] == h3[m - b3 - op.len()]);
    }
    lemma_capture_text(env, g + 1, i0, 1);
    // The fields' elements balance out.
    assert(env.subrange(i0, i0 + inner.len()) =~= inner);
    lemma_capture_fields(env, fields, vs, i0, 1);
    // The whitespace before the closing tag.
    assert forall|m: int| b4 <= m < ct implies env[m] != '<' by {
        assert(env[m] == h4[m - b4]);
    }
    lemma_capture_text(env, b4, ct, 1);
    // The root's closing tag ends the subtree.
    assert(env[ct] == '<' && env[ct + 1] == '/');
    assert(env[g2] == '>');
    assert forall|m: int| ct <= m < g2 implies env[m] != '>' by {
        if m < b5 {
            assert(env[m] == h4[m - b4]);
        } else if m < b6 {
            assert(env[m] == op[m - b5]);
            assert(is_ident_char(op[m - b5]));
        } else {
            assert(env[m] == h5[m - b6]);
        }
    }
    lemma_capture_tag_close(env, ct, g2, 1);
    assert(g2 + 1 == q + 5 + op.len() + 22 + inner.len() + 15 + op.len() + 9);
}

/// Parsing the response envelope built around serialized fields recovers
/// the operation — under its `Response` suffix — and captures exactly the
/// response element as the body fragment.
#[verifier::rlimit(100)]
proof fn lemma_parse_response(
    fields: Seq<FieldModel>,
    vs: Seq<ValueModel>,
    op: Seq<char>,
    ns: Seq<char>,
)
    requires
        fields.len() == vs.len(),
        values_match(vs, fields),
        values_not_raw(vs),
        wire_names_identifiers(fields),
        spec_valid_identifier(op),
        no_lt(ns),
    ensures
        ({
            let inner = spec_fields_xml(fields, vs);
            let env = spec_soap_response(inner, op, ns);
            let parsed = spec_parse_envelope(env);
            &&& parsed is Ok
            &&& parsed->Ok_0.operation == op + "Response"@
            &&& parsed->Ok_0.body == spec_response_element(inner, op)
        }),
{
    let h1 = "<?xml version=\"1.0\" encoding=\"UTF-8\"?>\n<soap:Envelope xmlns:soap=\"http://schemas.xmlsoap.org/soap/envelope/\"\n               xmlns:tns=\""@;
    let h2 = "\">\n    <soap:Body>\n        <tns:"@;
    let h3 = "Response>\n            "@;
    let h4 = "\n        </tns:"@;
    let h5 = "Response>\n    </soap:Body>\n</soap:Envelope>"@;
    let inner = spec_fields_xml(fields, vs);
    let env = spec_soap_response(inner, op, ns);
    reveal_strlit("<?xml version=\"1.0\" encoding=\"UTF-8\"?>\n<soap:Envelope xmlns:soap=\"http://schemas.xmlsoap.org/soap/envelope/\"\n               xmlns:tns=\"");
    reveal_strlit("\">\n    <soap:Body>\n        <tns:");
    reveal_strlit("Response>\n            ");
    reveal_strlit("\n        </tns:");
    reveal_strlit("Response>\n    </soap:Body>\n</soap:Envelope>");
    reveal_strlit("<soap:Body>");
    reveal_strlit("tns:");
    reveal_strlit("Response");
    assert(env =~= h1 + ns + h2 + op + h3 + inner + h4 + op + h5);
    let b2 = h1.len() as int + ns.len();
    let p = b2 + 7;
    let q = b2 + 27;
    let b3 = b2 + 32;
    let g = b3 + op.len() + 8;
    let i0 = b3 + op.len() + 22;
    let b4 = i0 + inner.len();
    let b5 = b4 + 15;
    let b6 = b5 + op.len();
    let e = b6 + 9;
    assert(h2.len() == 32 && h3.len() == 22 && h4.len() == 15 && h5.len() == 43);
    assert forall|k: int| 0 <= k < 32 implies env[b2 + k] == h2[k] by {}
    assert forall|k: int| 0 <= k < op.len() implies env[b3 + k] == op[k] by {}
    assert forall|k: int| 0 <= k < 22 implies env[b3 + op.len() + k] == h3[k] by {}
    // The Body opens where the literal places it.
    lemma_response_body_start(inner, op, ns);
    assert(spec_body_start(env) == Some((p, 11int)));
    // The whitespace after the Body tag ends at the response element.
    assert(forall|j: int| 18 <= j < 27 ==> crate::text::is_space(#[trigger] h2[j]));
    assert forall|m: int| p + 11 <= m < q implies crate::text::is_space(env[m]) by {
        assert(env[m] == h2[m - b2]);
    }
    assert(env[q] == '<' && !crate::text::is_space('<'));
    lemma_skip_ws_is_least(env, p + 11, q);
    assert(spec_skip_ws(env, p + 11) == q);
    assert(env[q + 1] == 't');
    // The response tag's closing bracket.
    assert(env[g] == '>');
    assert forall|m: int| q <= m < g implies env[m] != '>' by {
        if m < b3 {
            assert(env[m] == h2[m - b2]);
        } else if m < b3 + op.len() {
            assert(env[m] == op[m - b3]);
            assert(is_ident_char(op[m - b3]));
        } else {
            assert(env[m] == h3[m - b3 - op.len()]);
        }
    }
    lemma_first_char_is_least(env, q, '>', g);
    // The operation's local name.
    assert(env.subrange(q + 1, g) =~= "tns:"@ + op + "Response"@);
    lemma_local_name_tns(op);
    // The captured subtree is the whole response element.
    lemma_response_capture(fields, vs, op, ns);
    assert(spec_capture(env, q, 0) == Some(e));
    reveal_strlit("<tns:");
    reveal_strlit("Response>");
    assert forall|k: int| 0 <= k < inner.len() implies env[i0 + k] == inner[k] by {}
    assert forall|k: int| 0 <= k < 15 implies env[b4 + k] == h4[k] by {}
    assert forall|k: int| 0 <= k < op.len() implies env[b5 + k] == op[k] by {}
    assert forall|k: int| 0 <= k < 43 implies env[b6 + k] == h5[k] by {}
    assert(forall|k: int| 0 <= k < 5 ==> "<tns:"@[k] == h2[27 + k]);
    assert(forall|k: int| 0 <= k < 9 ==> "Response>"@[k] == h5[k]);
    assert(env.subrange(q, e) =~= spec_response_element(inner, op));
    reveal(spec_parse_envelope);
    assert(spec_parse_envelope(env) is Ok);
}

/// Deserializing the captured response element under the response type
/// recovers exactly the values that were serialized.
#[verifier::rlimit(100)]
proof fn lemma_deserialize_element(t: TypeModel, vs: Seq<ValueModel>, op: Seq<char>)
    requires
        t.fields.len() == vs.len(),
        values_match(vs, t.fields),
        values_not_raw(vs),
        distinct_wire_names(t.fields),
        wire_names_identifiers(t.fields),
        spec_valid_identifier(op),
    ensures
        crate::serialization::spec_deserialize(
            t,
            spec_response_element(spec_fields_xml(t.fields, vs), op),
        ) == Ok::<_, Seq<char>>(vs),
{
    reveal(crate::serialization::spec_deserialize);
    reveal_strlit("<tns:");
    reveal_strlit("Response>\n            ");
    reveal_strlit("\n        </tns:");
    reveal_strlit("Response>");
    reveal_strlit("<");
    reveal_strlit(">");
    let inner = spec_fields_xml(t.fields, vs);
    let x = spec_response_element(inner, op);
    let pre = "<tns:"@;
    let h3 = "Response>\n            "@;
    let tail = "\n        </tns:"@ + op + "Response>"@;
    assert(x =~= pre + op + h3 + inner + tail);
    let g = 5 + op.len() as int + 8;
    let i0 = g + 14;
    let b4 = i0 + inner.len();
    let ct = b4 + 9;
    assert(tail.len() == op.len() + 24);
    assert(x.len() == b4 + tail.len());
    assert forall|k: int| 0 <= k < 5 implies x[k] == pre[k] by {}
    assert forall|k: int| 0 <= k < op.len() implies x[5 + k] == op[k] by {}
    assert forall|k: int| 0 <= k < 22 implies x[5 + op.len() + k] == h3[k] by {}
    assert forall|k: int| 0 <= k < inner.len() implies x[i0 + k] == inner[k] by {}
    assert forall|k: int| 0 <= k < tail.len() implies x[b4 + k] == tail[k] by {}
    // The root tag is passed over.
    assert(x[0] == '<');
    assert(!crate::text::is_space('<'));
    lemma_skip_ws_is_least(x, 0, 0);
    assert(x[g] == '>');
    assert forall|m: int| 0 <= m < g implies x[m] != '>' by {
        if m < 5 {
            assert(x[m] == pre[m]);
        } else if m < 5 + op.len() {
            assert(x[m] == op[m - 5]);
            assert(is_ident_char(op[m - 5]));
        } else {
            assert(x[m] == h3[m - 5 - op.len()]);
        }
    }
    lemma_first_char_is_least(x, 0, '>', g);
    // Whitespace runs up to the fields and up to the closing tag.
    assert(forall|j: int| 9 <= j < 22 ==> crate::text::is_space(#[trigger] h3[j]));
    assert(forall|j: int| 0 <= j < 9 ==> crate::text::is_space(#[trigger] ("\n        </tns:"@)[j]));
    assert forall|m: int| g + 1 <= m < i0 implies crate::text::is_space(x[m]) by {
        assert(x[m] == h3[m - 5 - op.len()]);
    }
    assert forall|m: int| b4 <= m < ct implies crate::text::is_space(x[m]) by {
        assert(x[m] == tail[m - b4]);
        assert(tail[m - b4] == ("\n        </tns:"@)[m - b4]);
    }
    assert(x[ct] == '<' && x[ct + 1] == '/') by {
        assert(x[ct] == tail[9]);
        assert(x[ct + 1] == tail[10]);
    }
    crate::serialization::lemma_fields_xml_structure(t.fields, vs);
    let fp = crate::serialization::spec_first_present(vs);
    if fp >= 0 {
        // The fields begin right after the root tag's whitespace.
        let namep = t.fields[fp].xml_name;
        assert(inner.subrange(0, namep.len() as int + 2)[0] == inner[0]);
        assert(("<"@ + namep + ">"@)[0] == '<');
        assert(x[i0] == inner[0]);
        lemma_skip_ws_is_least(x, g + 1, i0);
        assert(spec_skip_ws(x, g + 1) == i0);
        assert(x.subrange(i0, i0 + inner.len()) =~= inner);
        lemma_skip_ws_is_least(x, i0 + inner.len(), ct);
        assert(spec_skip_ws(x, i0 + inner.len()) == ct);
        assert(crate::serialization::benign_tail(x, ct));
        crate::serialization::lemma_read_fields_roundtrip(x, t.fields, vs, g + 1);
    } else {
        // Every field is absent: only whitespace stands before the
        // closing tag.
        assert(inner =~= Seq::<char>::empty());
        assert(i0 == b4);
        assert forall|m: int| g + 1 <= m < ct implies crate::text::is_space(x[m]) by {}
        lemma_skip_ws_is_least(x, g + 1, ct);
        assert(spec_skip_ws(x, g + 1) == ct);
        assert(x.subrange(ct, ct + 0) =~= Seq::<char>::empty());
        crate::text::lemma_skip_ws_idempotent(x, g + 1);
        assert(spec_skip_ws(x, ct) == ct);
        assert(crate::serialization::benign_tail(x, ct));
        crate::serialization::lemma_read_fields_roundtrip(x, t.fields, vs, g + 1);
    }
}

/// The codec round trip: serializing a typed response, wrapping it in
/// its response envelope, parsing that envelope back, and deserializing
/// the captured body fragment recovers the original operation name —
/// under its `Response` suffix — and a value equal to the original.
/// The type and operation names and the field wire names are plain
/// identifiers, wire names are pairwise distinct, the namespace holds no
/// `<`, and no field value is a raw XML payload; absent optional fields
/// round-trip as absent.
pub proof fn lemma_response_roundtrip(
    t: TypeModel,
    vs: Seq<ValueModel>,
    op: Seq<char>,
    ns: Seq<char>,
)
    requires
        spec_valid_identifier(t.name),
        t.fields.len() == vs.len(),
        values_match(vs, t.fields),
        values_not_raw(vs),
        distinct_wire_names(t.fields),
        wire_names_identifiers(t.fields),
        spec_valid_identifier(op),
        no_lt(ns),
    ensures
        spec_extract_inner(spec_serialize(t, vs)) == Ok::<_, Seq<char>>(
            spec_fields_xml(t.fields, vs),
        ),
        ({
            let env = spec_soap_response(spec_fields_xml(t.fields, vs), op, ns);
            let parsed = spec_parse_envelope(env);
            &&& parsed is Ok
            &&& parsed->Ok_0.operation == op + "Response"@
            &&& parsed->Ok_0.body == spec_response_element(spec_fields_xml(t.fields, vs), op)
            &&& crate::serialization::spec_deserialize(t, parsed->Ok_0.body) == Ok::<_, Seq<char>>(
                vs,
            )
        }),
{
    lemma_extract_inner_serialize(t, vs);
    lemma_parse_response(t.fields, vs, op, ns);
    lemma_deserialize_element(t, vs, op);
}

} // verus!
