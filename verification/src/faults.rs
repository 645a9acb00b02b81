//! XML entity escaping and decoding, and the SOAP fault envelope.

use vstd::prelude::*;
use crate::text::{concat_map, push_char, starts_with_at};

verus! {

/// The characters of `&amp;`.
pub open spec fn ent_amp() -> Seq<char> {
    seq!['&', 'a', 'm', 'p', ';']
}

/// The characters of `&lt;`.
pub open spec fn ent_lt() -> Seq<char> {
    seq!['&', 'l', 't', ';']
}

/// The characters of `&gt;`.
pub open spec fn ent_gt() -> Seq<char> {
    seq!['&', 'g', 't', ';']
}

/// The characters of `&quot;`.
pub open spec fn ent_quot() -> Seq<char> {
    seq!['&', 'q', 'u', 'o', 't', ';']
}

/// The characters of `&apos;`.
pub open spec fn ent_apos() -> Seq<char> {
    seq!['&', 'a', 'p', 'o', 's', ';']
}

/// How one character is written in XML text content: the five special
/// characters become their entities, every other character stands as is.
pub open spec fn escape_char(c: char) -> Seq<char> {
    if c == '&' {
        ent_amp()
    } else if c == '<' {
        ent_lt()
    } else if c == '>' {
        ent_gt()
    } else if c == '"' {
        ent_quot()
    } else if c == '\'' {
        ent_apos()
    } else {
        seq![c]
    }
}

/// The XML-escaped form of a text: each character escaped in turn.
pub open spec fn spec_escape(s: Seq<char>) -> Seq<char> {
    concat_map(s, |c: char| escape_char(c))
}

/// The decoded form of XML text content: each of the five standard
/// entities becomes its character; everything else stands as is.
pub open spec fn spec_unescape(s: Seq<char>) -> Seq<char>
    decreases s.len(),
{
    if s.len() == 0 {
        Seq::empty()
    } else if s.len() >= 5 && s.subrange(0, 5) == ent_amp() {
        seq!['&'] + spec_unescape(s.skip(5))
    } else if s.len() >= 4 && s.subrange(0, 4) == ent_lt() {
        seq!['<'] + spec_unescape(s.skip(4))
    } else if s.len() >= 4 && s.subrange(0, 4) == ent_gt() {
        seq!['>'] + spec_unescape(s.skip(4))
    } else if s.len() >= 6 && s.subrange(0, 6) == ent_quot() {
        seq!['"'] + spec_unescape(s.skip(6))
    } else if s.len() >= 6 && s.subrange(0, 6) == ent_apos() {
        seq!['\''] + spec_unescape(s.skip(6))
    } else {
        seq![s[0]] + spec_unescape(s.drop_first())
    }
}

/// Escaped text never holds a raw markup character: no `<`, `>`, `"` or
/// `'` at all, and `&` only where an entity it begins was written.
pub proof fn lemma_escape_no_markup(s: Seq<char>)
    ensures
        forall|i: int|
            0 <= i < spec_escape(s).len() ==> #[trigger] spec_escape(s)[i] != '<' && spec_escape(
                s,
            )[i] != '>' && spec_escape(s)[i] != '"' && spec_escape(s)[i] != '\'',
    decreases s.len(),
{
    if s.len() > 0 {
        lemma_escape_no_markup(s.drop_first());
        let f = |c: char| escape_char(c);
        assert(spec_escape(s) == escape_char(s[0]) + spec_escape(s.drop_first()));
        assert forall|i: int|
            0 <= i < spec_escape(s).len() implies #[trigger] spec_escape(s)[i] != '<'
            && spec_escape(s)[i] != '>' && spec_escape(s)[i] != '"' && spec_escape(s)[i]
            != '\'' by {
            if i < escape_char(s[0]).len() {
                assert(spec_escape(s)[i] == escape_char(s[0])[i]);
            } else {
                assert(spec_escape(s)[i] == spec_escape(s.drop_first())[i - escape_char(
                    s[0],
                ).len()]);
            }
        }
    }
}

/// Decoding undoes escaping: for every text, unescaping its escaped form
/// yields the text itself.
pub proof fn lemma_unescape_escape(s: Seq<char>)
    ensures
        spec_unescape(spec_escape(s)) == s,
    decreases s.len(),
{
    let f = |c: char| escape_char(c);
    if s.len() == 0 {
        assert(spec_escape(s) =~= Seq::<char>::empty());
        assert(spec_unescape(spec_escape(s)) =~= s);
    } else {
        lemma_unescape_escape(s.drop_first());
        let head = escape_char(s[0]);
        let rest = spec_escape(s.drop_first());
        let e = spec_escape(s);
        assert(e == head + rest);
        let c = s[0];
        if c == '&' {
            assert(e.subrange(0, 5) =~= ent_amp());
            assert(e.skip(5) =~= rest);
            assert(spec_unescape(e) == seq!['&'] + s.drop_first());
            assert(seq!['&'] + s.drop_first() =~= s);
        } else if c == '<' {
            assert(e.subrange(0, 4) =~= ent_lt());
            assert(e.len() >= 5 ==> e.subrange(0, 5) != ent_amp()) by {
                if e.len() >= 5 {
                    assert(e.subrange(0, 5)[1] == 'l');
                }
            }
            assert(e.skip(4) =~= rest);
            assert(spec_unescape(e) == seq!['<'] + s.drop_first());
            assert(seq!['<'] + s.drop_first() =~= s);
        } else if c == '>' {
            assert(e.subrange(0, 4) =~= ent_gt());
            assert(e.len() >= 5 ==> e.subrange(0, 5) != ent_amp()) by {
                if e.len() >= 5 {
                    assert(e.subrange(0, 5)[1] == 'g');
                }
            }
            assert(e.len() >= 4 ==> e.subrange(0, 4) != ent_lt()) by {
                if e.len() >= 4 {
                    assert(e.subrange(0, 4)[1] == 'g');
                }
            }
            assert(e.skip(4) =~= rest);
            assert(spec_unescape(e) == seq!['>'] + s.drop_first());
            assert(seq!['>'] + s.drop_first() =~= s);
        } else if c == '"' {
            assert(e.subrange(0, 6) =~= ent_quot());
            assert(e.len() >= 5 ==> e.subrange(0, 5) != ent_amp()) by {
                if e.len() >= 5 {
                    assert(e.subrange(0, 5)[1] == 'q');
                }
            }
            assert(e.len() >= 4 ==> e.subrange(0, 4) != ent_lt() && e.subrange(0, 4) != ent_gt())
                by {
                if e.len() >= 4 {
                    assert(e.subrange(0, 4)[1] == 'q');
                }
            }
            assert(e.skip(6) =~= rest);
            assert(spec_unescape(e) == seq!['"'] + s.drop_first());
            assert(seq!['"'] + s.drop_first() =~= s);
        } else if c == '\'' {
            assert(e.subrange(0, 6) =~= ent_apos());
            assert(e.len() >= 5 ==> e.subrange(0, 5) != ent_amp()) by {
                if e.len() >= 5 {
                    assert(e.subrange(0, 5)[2] == 'p');
                }
            }
            assert(e.len() >= 4 ==> e.subrange(0, 4) != ent_lt() && e.subrange(0, 4) != ent_gt())
                by {
                if e.len() >= 4 {
                    assert(e.subrange(0, 4)[1] == 'a');
                }
            }
            assert(e.len() >= 6 ==> e.subrange(0, 6) != ent_quot()) by {
                if e.len() >= 6 {
                    assert(e.subrange(0, 6)[1] == 'a');
                }
            }
            assert(e.skip(6) =~= rest);
            assert(spec_unescape(e) == seq!['\''] + s.drop_first());
            assert(seq!['\''] + s.drop_first() =~= s);
        } else {
            assert(e[0] == c);
            assert(e.len() >= 5 ==> e.subrange(0, 5) != ent_amp()) by {
                if e.len() >= 5 {
                    assert(e.subrange(0, 5)[0] == c);
                }
            }
            assert(e.len() >= 4 ==> e.subrange(0, 4) != ent_lt() && e.subrange(0, 4) != ent_gt())
                by {
                if e.len() >= 4 {
                    assert(e.subrange(0, 4)[0] == c);
                }
            }
            assert(e.len() >= 6 ==> e.subrange(0, 6) != ent_quot() && e.subrange(0, 6)
                != ent_apos()) by {
                if e.len() >= 6 {
                    assert(e.subrange(0, 6)[0] == c);
                }
            }
            assert(e.drop_first() =~= rest);
            assert(spec_unescape(e) == seq![c] + s.drop_first());
            assert(seq![c] + s.drop_first() =~= s);
        }
    }
}

/// Text holding no ampersand decodes to itself.
pub proof fn lemma_unescape_no_amp(t: Seq<char>)
    requires
        forall|i: int| 0 <= i < t.len() ==> #[trigger] t[i] != '&',
    ensures
        spec_unescape(t) == t,
    decreases t.len(),
{
    if t.len() > 0 {
        assert(t[0] != '&');
        assert(t.len() >= 5 ==> t.subrange(0, 5) != ent_amp()) by {
            if t.len() >= 5 {
                assert(t.subrange(0, 5)[0] == t[0]);
            }
        }
        assert(t.len() >= 4 ==> t.subrange(0, 4) != ent_lt() && t.subrange(0, 4) != ent_gt()) by {
            if t.len() >= 4 {
                assert(t.subrange(0, 4)[0] == t[0]);
            }
        }
        assert(t.len() >= 6 ==> t.subrange(0, 6) != ent_quot() && t.subrange(0, 6) != ent_apos())
            by {
            if t.len() >= 6 {
                assert(t.subrange(0, 6)[0] == t[0]);
            }
        }
        assert(forall|i: int| 0 <= i < t.drop_first().len() ==> #[trigger] t.drop_first()[i] != '&');
        lemma_unescape_no_amp(t.drop_first());
        assert(seq![t[0]] + t.drop_first() =~= t);
    }
}

/// Escapes a text for XML: the five special characters become entities.
pub fn escape_xml(s: &str) -> (r: String)
    ensures
        r@ == spec_escape(s@),
{
    let n = s.unicode_len();
    let mut out = String::new();
    let ghost f = |c: char| escape_char(c);
    let mut i: usize = 0;
    proof {
        assert(s@.take(0) =~= Seq::<char>::empty());
    }
    while i < n
        invariant
            n == s@.len(),
            0 <= i <= n,
            f == (|c: char| escape_char(c)),
            out@ == concat_map(s@.take(i as int), f),
        decreases n - i,
    {
        proof {
            crate::text::lemma_concat_map_take_step(s@, f, i as int);
        }
        let c = s.get_char(i);
        if c == '&' {
            out.append("&amp;");
            proof {
                reveal_strlit("&amp;");
                assert(out@ =~= concat_map(s@.take(i + 1), f));
            }
        } else if c == '<' {
            out.append("&lt;");
            proof {
                reveal_strlit("&lt;");
                assert(out@ =~= concat_map(s@.take(i + 1), f));
            }
        } else if c == '>' {
            out.append("&gt;");
            proof {
                reveal_strlit("&gt;");
                assert(out@ =~= concat_map(s@.take(i + 1), f));
            }
        } else if c == '"' {
            out.append("&quot;");
            proof {
                reveal_strlit("&quot;");
                assert(out@ =~= concat_map(s@.take(i + 1), f));
            }
        } else if c == '\'' {
            out.append("&apos;");
            proof {
                reveal_strlit("&apos;");
                assert(out@ =~= concat_map(s@.take(i + 1), f));
            }
        } else {
            push_char(&mut out, c);
            proof {
                assert(out@ =~= concat_map(s@.take(i + 1), f));
            }
        }
        i = i + 1;
    }
    proof {
        assert(s@.take(n as int) =~= s@);
    }
    out
}

/// Decodes the five standard XML entities in a text.
pub fn decode_xml_content(s: &str) -> (r: String)
    ensures
        r@ == spec_unescape(s@),
{
    let n = s.unicode_len();
    let mut out = String::new();
    let mut i: usize = 0;
    proof {
        assert(s@.skip(0) =~= s@);
        assert(Seq::<char>::empty() + spec_unescape(s@) =~= spec_unescape(s@));
    }
    while i < n
        invariant
            n == s@.len(),
            0 <= i <= n,
            spec_unescape(s@) == out@ + spec_unescape(s@.skip(i as int)),
        decreases n - i,
    {
        let ghost rem = s@.skip(i as int);
        proof {
            reveal_strlit("&amp;");
            reveal_strlit("&lt;");
            reveal_strlit("&gt;");
            reveal_strlit("&quot;");
            reveal_strlit("&apos;");
            assert(rem.len() == n - i);
            assert(rem[0] == s@[i as int]);
        }
        if n - i >= 5 && starts_with_at(s, "&amp;", i) {
            proof {
                assert(rem.subrange(0, 5) =~= s@.subrange(i as int, i + 5));
                assert(rem.subrange(0, 5) =~= ent_amp());
                assert(rem.skip(5) =~= s@.skip(i + 5));
            }
            push_char(&mut out, '&');
            proof {
                assert(out@ + spec_unescape(s@.skip(i + 5)) =~= spec_unescape(s@));
            }
            i = i + 5;
        } else if n - i >= 4 && starts_with_at(s, "&lt;", i) {
            proof {
                assert(rem.subrange(0, 4) =~= s@.subrange(i as int, i + 4));
                assert(rem.subrange(0, 4) =~= ent_lt());
                assert(rem.len() >= 5 ==> rem.subrange(0, 5) != ent_amp()) by {
                    if rem.len() >= 5 {
                        assert(rem.subrange(0, 5)[1] == rem[1]);
                        assert(rem[1] == 'l');
                    }
                }
                assert(rem.skip(4) =~= s@.skip(i + 4));
            }
            push_char(&mut out, '<');
            proof {
                assert(out@ + spec_unescape(s@.skip(i + 4)) =~= spec_unescape(s@));
            }
            i = i + 4;
        } else if n - i >= 4 && starts_with_at(s, "&gt;", i) {
            proof {
                assert(rem.subrange(0, 4) =~= s@.subrange(i as int, i + 4));
                assert(rem.subrange(0, 4) =~= ent_gt());
                assert(rem.len() >= 5 ==> rem.subrange(0, 5) != ent_amp()) by {
                    if rem.len() >= 5 {
                        assert(rem.subrange(0, 5)[1] == rem[1]);
                        assert(rem[1] == 'g');
                    }
                }
                assert(rem.skip(4) =~= s@.skip(i + 4));
            }
            push_char(&mut out, '>');
            proof {
                assert(out@ + spec_unescape(s@.skip(i + 4)) =~= spec_unescape(s@));
            }
            i = i + 4;
        } else if n - i >= 6 && starts_with_at(s, "&quot;", i) {
            proof {
                assert(rem.subrange(0, 6) =~= s@.subrange(i as int, i + 6));
                assert(rem.subrange(0, 6) =~= ent_quot());
                assert(rem.len() >= 5 ==> rem.subrange(0, 5) != ent_amp()) by {
                    if rem.len() >= 5 {
                        assert(rem.subrange(0, 5)[1] == rem[1]);
                        assert(rem[1] == 'q');
                    }
                }
                assert(rem.len() >= 4 ==> rem.subrange(0, 4) != ent_lt() && rem.subrange(0, 4)
                    != ent_gt()) by {
                    if rem.len() >= 4 {
                        assert(rem.subrange(0, 4)[1] == rem[1]);
                        assert(rem[1] == 'q');
                    }
                }
                assert(rem.skip(6) =~= s@.skip(i + 6));
            }
            push_char(&mut out, '"');
            proof {
                assert(out@ + spec_unescape(s@.skip(i + 6)) =~= spec_unescape(s@));
            }
            i = i + 6;
        } else if n - i >= 6 && starts_with_at(s, "&apos;", i) {
            proof {
                assert(rem.subrange(0, 6) =~= s@.subrange(i as int, i + 6));
                assert(rem.subrange(0, 6) =~= ent_apos());
                assert(rem.len() >= 5 ==> rem.subrange(0, 5) != ent_amp()) by {
                    if rem.len() >= 5 {
                        assert(rem.subrange(0, 5)[2] == rem[2]);
                        assert(rem[2] == 'p');
                    }
                }
                assert(rem.len() >= 4 ==> rem.subrange(0, 4) != ent_lt() && rem.subrange(0, 4)
                    != ent_gt()) by {
                    if rem.len() >= 4 {
                        assert(rem.subrange(0, 4)[1] == rem[1]);
                        assert(rem[1] == 'a');
                    }
                }
                assert(rem.len() >= 6 ==> rem.subrange(0, 6) != ent_quot()) by {
                    if rem.len() >= 6 {
                        assert(rem.subrange(0, 6)[1] == rem[1]);
                        assert(rem[1] == 'a');
                    }
                }
                assert(rem.skip(6) =~= s@.skip(i + 6));
            }
            push_char(&mut out, '\'');
            proof {
                assert(out@ + spec_unescape(s@.skip(i + 6)) =~= spec_unescape(s@));
            }
            i = i + 6;
        } else {
            let c = s.get_char(i);
            proof {
                reveal_strlit("&amp;");
                reveal_strlit("&lt;");
                reveal_strlit("&gt;");
                reveal_strlit("&quot;");
                reveal_strlit("&apos;");
                assert("&amp;"@ =~= ent_amp());
                assert("&lt;"@ =~= ent_lt());
                assert("&gt;"@ =~= ent_gt());
                assert("&quot;"@ =~= ent_quot());
                assert("&apos;"@ =~= ent_apos());
                if rem.len() >= 5 {
                    assert(rem.subrange(0, 5) =~= s@.subrange(i as int, i + 5));
                    assert(rem.subrange(0, 5) != ent_amp());
                }
                if rem.len() >= 4 {
                    assert(rem.subrange(0, 4) =~= s@.subrange(i as int, i + 4));
                    assert(rem.subrange(0, 4) != ent_lt());
                    assert(rem.subrange(0, 4) != ent_gt());
                }
                if rem.len() >= 6 {
                    assert(rem.subrange(0, 6) =~= s@.subrange(i as int, i + 6));
                    assert(rem.subrange(0, 6) != ent_quot());
                    assert(rem.subrange(0, 6) != ent_apos());
                }
                assert(rem.drop_first() =~= s@.skip(i + 1));
                assert(spec_unescape(rem) == seq![c] + spec_unescape(s@.skip(i + 1)));
            }
            push_char(&mut out, c);
            proof {
                assert(out@ + spec_unescape(s@.skip(i + 1)) =~= spec_unescape(s@));
            }
            i = i + 1;
        }
    }
    proof {
        assert(s@.skip(n as int) =~= Seq::<char>::empty());
        assert(out@ + Seq::<char>::empty() =~= out@);
    }
    out
}

/// The fault envelope around an error message: `faultcode` is the literal
/// `Server`, and `faultstring` is the message with its markup characters
/// entity-escaped.
pub open spec fn spec_soap_fault(msg: Seq<char>) -> Seq<char> {
    "<?xml version=\"1.0\" encoding=\"UTF-8\"?>\n<soap:Envelope xmlns:soap=\"http://schemas.xmlsoap.org/soap/envelope/\">\n    <soap:Body>\n        <soap:Fault>\n            <faultcode>Server</faultcode>\n            <faultstring>"@
        + spec_escape(msg)
        + "</faultstring>\n        </soap:Fault>\n    </soap:Body>\n</soap:Envelope>"@
}

/// Builds the SOAP fault envelope for an error message, escaping the
/// message so the document stays well-formed.
pub fn create_soap_fault(error: &str) -> (r: String)
    ensures
        r@ == spec_soap_fault(error@),
{
    let mut out = String::from_str(
        "<?xml version=\"1.0\" encoding=\"UTF-8\"?>\n<soap:Envelope xmlns:soap=\"http://schemas.xmlsoap.org/soap/envelope/\">\n    <soap:Body>\n        <soap:Fault>\n            <faultcode>Server</faultcode>\n            <faultstring>",
    );
    let escaped = escape_xml(error);
    out.append(escaped.as_str());
    out.append("</faultstring>\n        </soap:Fault>\n    </soap:Body>\n</soap:Envelope>");
    assert(out@ =~= spec_soap_fault(error@));
    out
}

} // verus!
