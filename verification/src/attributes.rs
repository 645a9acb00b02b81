//! Service configuration: the four service attributes, their validation
//! rules, and the parser that builds a `ServiceConfig` from attribute pairs.

use vstd::prelude::*;
use crate::text::str_eq;

verus! {

/// Configuration of one SOAP service: target namespace, service and port
/// names, and the HTTP path the service is bound to.
#[derive(Debug)]
pub struct ServiceConfig {
    pub namespace: String,
    pub service_name: String,
    pub port_name: String,
    pub bind_path: String,
}

/// The mathematical model of a service configuration.
#[verifier::ext_equal]
pub struct ConfigModel {
    pub namespace: Seq<char>,
    pub service_name: Seq<char>,
    pub port_name: Seq<char>,
    pub bind_path: Seq<char>,
}

impl View for ServiceConfig {
    type V = ConfigModel;

    open spec fn view(&self) -> ConfigModel {
        ConfigModel {
            namespace: self.namespace@,
            service_name: self.service_name@,
            port_name: self.port_name@,
            bind_path: self.bind_path@,
        }
    }
}

/// An error raised while the service is being defined; such an error
/// prevents the service from starting.
#[derive(Debug)]
pub struct DefinitionError {
    pub msg: String,
}

impl DefinitionError {
    /// The human-readable description of the error.
    pub fn message(&self) -> (r: &str)
        ensures
            r@ == self.msg@,
    {
        self.msg.as_str()
    }
}

/// True when `s` begins with `p`.
pub open spec fn spec_starts_with(s: Seq<char>, p: Seq<char>) -> bool {
    p.len() <= s.len() && s.subrange(0, p.len() as int) == p
}

/// A namespace is valid when it is a URI beginning with `http://` or `https://`.
pub open spec fn spec_valid_namespace(s: Seq<char>) -> bool {
    s.len() > 0 && (spec_starts_with(s, "http://"@) || spec_starts_with(s, "https://"@))
}

/// True when `c` is an ASCII letter.
pub open spec fn is_alpha(c: char) -> bool {
    ('a' <= c && c <= 'z') || ('A' <= c && c <= 'Z')
}

/// True when `c` is an ASCII digit.
pub open spec fn is_digit(c: char) -> bool {
    '0' <= c && c <= '9'
}

/// True when `c` may stand in an identifier: a letter, a digit or `_`.
pub open spec fn is_ident_char(c: char) -> bool {
    is_alpha(c) || is_digit(c) || c == '_'
}

/// An identifier starts with a letter or underscore and holds only
/// letters, digits and underscores.
pub open spec fn spec_valid_identifier(s: Seq<char>) -> bool {
    &&& s.len() > 0
    &&& (is_alpha(s[0]) || s[0] == '_')
    &&& forall|i: int| 0 <= i < s.len() ==> is_ident_char(#[trigger] s[i])
}

/// A bind path starts with `/` and is a proper sub-path, never `/` itself.
pub open spec fn spec_valid_bind_path(s: Seq<char>) -> bool {
    s.len() > 0 && s[0] == '/' && s != "/"@
}

/// Tests whether `s` begins with `p`.
pub fn starts_with(s: &str, p: &str) -> (r: bool)
    ensures
        r == spec_starts_with(s@, p@),
{
    let s_len = s.unicode_len();
    let p_len = p.unicode_len();
    if p_len > s_len {
        return false;
    }
    crate::text::starts_with_at(s, p, 0)
}

/// The message with which an invalid namespace is rejected.
pub open spec fn spec_namespace_err_msg(s: Seq<char>) -> Seq<char> {
    if s.len() == 0 {
        "Namespace cannot be empty"@
    } else {
        "Namespace must be a valid URI starting with http:// or https://"@
    }
}

/// The message with which an invalid identifier in `field_name` is rejected.
pub open spec fn spec_identifier_err_msg(s: Seq<char>, field_name: Seq<char>) -> Seq<char> {
    if s.len() == 0 {
        field_name + " cannot be empty"@
    } else if !(is_alpha(s[0]) || s[0] == '_') {
        field_name + " must start with a letter or underscore"@
    } else {
        field_name + " must contain only alphanumeric characters and underscores"@
    }
}

/// The message with which an invalid bind path is rejected.
pub open spec fn spec_bind_path_err_msg(s: Seq<char>) -> Seq<char> {
    if !(s.len() > 0 && s[0] == '/') {
        "bind_path must start with '/'"@
    } else {
        "bind_path cannot be just '/'"@
    }
}

/// Checks that the namespace is a URI beginning with `http://` or `https://`.
/// Returns exactly the error the rule calls for otherwise.
pub fn validate_namespace(namespace: &str) -> (r: Result<(), DefinitionError>)
    ensures
        r is Ok <==> spec_valid_namespace(namespace@),
        r is Err ==> r->Err_0.msg@ == spec_namespace_err_msg(namespace@),
{
    if namespace.unicode_len() == 0 {
        return Err(DefinitionError { msg: String::from_str("Namespace cannot be empty") });
    }
    if !starts_with(namespace, "http://") && !starts_with(namespace, "https://") {
        return Err(DefinitionError {
            msg: String::from_str("Namespace must be a valid URI starting with http:// or https://"),
        });
    }
    Ok(())
}

/// Checks that `value` is a valid identifier; the error names the field
/// whose value was rejected.
pub fn validate_identifier(value: &str, field_name: &str) -> (r: Result<(), DefinitionError>)
    ensures
        r is Ok <==> spec_valid_identifier(value@),
        r is Err ==> r->Err_0.msg@ == spec_identifier_err_msg(value@, field_name@),
{
    let n = value.unicode_len();
    if n == 0 {
        let mut msg = String::from_str(field_name);
        msg.append(" cannot be empty");
        return Err(DefinitionError { msg });
    }
    let first = value.get_char(0);
    if !(('a' <= first && first <= 'z') || ('A' <= first && first <= 'Z') || first == '_') {
        let mut msg = String::from_str(field_name);
        msg.append(" must start with a letter or underscore");
        return Err(DefinitionError { msg });
    }
    let mut i: usize = 0;
    while i < n
        invariant
            n == value@.len(),
            0 <= i <= n,
            forall|j: int| 0 <= j < i ==> is_ident_char(#[trigger] value@[j]),
            is_alpha(value@[0]) || value@[0] == '_',
        decreases n - i,
    {
        let c = value.get_char(i);
        if !(('a' <= c && c <= 'z') || ('A' <= c && c <= 'Z') || ('0' <= c && c <= '9') || c
            == '_') {
            let mut msg = String::from_str(field_name);
            msg.append(" must contain only alphanumeric characters and underscores");
            return Err(DefinitionError { msg });
        }
        i = i + 1;
    }
    Ok(())
}

/// Checks that the bind path starts with `/` and is not just `/`.
pub fn validate_bind_path(path: &str) -> (r: Result<(), DefinitionError>)
    ensures
        r is Ok <==> spec_valid_bind_path(path@),
        r is Err ==> r->Err_0.msg@ == spec_bind_path_err_msg(path@),
{
    if path.unicode_len() == 0 || path.get_char(0) != '/' {
        return Err(DefinitionError { msg: String::from_str("bind_path must start with '/'") });
    }
    if str_eq(path, "/") {
        return Err(DefinitionError { msg: String::from_str("bind_path cannot be just '/'") });
    }
    assert(path@ != "/"@);
    Ok(())
}

/// The four configuration values gathered while attribute pairs are read;
/// a field is `None` until its attribute has been seen.
pub struct AttrAcc {
    pub namespace: Option<Seq<char>>,
    pub service_name: Option<Seq<char>>,
    pub port_name: Option<Seq<char>>,
    pub bind_path: Option<Seq<char>>,
}

/// The accumulator before any pair has been read.
pub open spec fn empty_acc() -> AttrAcc {
    AttrAcc { namespace: None, service_name: None, port_name: None, bind_path: None }
}

/// What reading the attribute pairs yields, starting from `acc`: the four
/// configuration values in order, or the message of the first error.
/// Pairs are read front to back; a later pair overwrites an earlier one
/// with the same key; an invalid value or an unknown key stops the read;
/// a key still missing at the end is reported, `namespace` first.
pub open spec fn spec_parse_attrs(
    pairs: Seq<(Seq<char>, Seq<char>)>,
    acc: AttrAcc,
) -> Result<(Seq<char>, Seq<char>, Seq<char>, Seq<char>), Seq<char>>
    decreases pairs.len(),
{
    if pairs.len() == 0 {
        if acc.namespace is None {
            Err("Missing required attribute: namespace"@)
        } else if acc.service_name is None {
            Err("Missing required attribute: service_name"@)
        } else if acc.port_name is None {
            Err("Missing required attribute: port_name"@)
        } else if acc.bind_path is None {
            Err("Missing required attribute: bind_path"@)
        } else {
            Ok((acc.namespace->0, acc.service_name->0, acc.port_name->0, acc.bind_path->0))
        }
    } else {
        let k = pairs[0].0;
        let v = pairs[0].1;
        if k == "namespace"@ {
            if spec_valid_namespace(v) {
                spec_parse_attrs(pairs.drop_first(), AttrAcc { namespace: Some(v), ..acc })
            } else {
                Err(spec_namespace_err_msg(v))
            }
        } else if k == "service_name"@ {
            if spec_valid_identifier(v) {
                spec_parse_attrs(pairs.drop_first(), AttrAcc { service_name: Some(v), ..acc })
            } else {
                Err(spec_identifier_err_msg(v, "service_name"@))
            }
        } else if k == "port_name"@ {
            if spec_valid_identifier(v) {
                spec_parse_attrs(pairs.drop_first(), AttrAcc { port_name: Some(v), ..acc })
            } else {
                Err(spec_identifier_err_msg(v, "port_name"@))
            }
        } else if k == "bind_path"@ {
            if spec_valid_bind_path(v) {
                spec_parse_attrs(pairs.drop_first(), AttrAcc { bind_path: Some(v), ..acc })
            } else {
                Err(spec_bind_path_err_msg(v))
            }
        } else {
            Err("Unknown attribute: "@ + k)
        }
    }
}

/// The views of a sequence of attribute pairs.
pub open spec fn pairs_view(v: Seq<(String, String)>) -> Seq<(Seq<char>, Seq<char>)> {
    Seq::new(v.len(), |i: int| (v[i].0@, v[i].1@))
}

/// The view of an optionally captured `String`.
pub open spec fn opt_view(o: Option<String>) -> Option<Seq<char>> {
    match o {
        Some(s) => Some(s@),
        None => None,
    }
}

/// Builds a validated `ServiceConfig` from `(name, value)` attribute pairs,
/// exactly as `spec_parse_attrs` reads them from an empty accumulator.
pub fn parse_service_attributes(attrs: &Vec<(String, String)>) -> (r: Result<
    ServiceConfig,
    DefinitionError,
>)
    ensures
        match r {
            Ok(c) => spec_parse_attrs(pairs_view(attrs@), empty_acc()) == Ok::<_, Seq<char>>(
                (c.namespace@, c.service_name@, c.port_name@, c.bind_path@),
            ),
            Err(e) => spec_parse_attrs(pairs_view(attrs@), empty_acc()) == Err::<
                (Seq<char>, Seq<char>, Seq<char>, Seq<char>),
                _,
            >(e.msg@),
        },
        r is Ok ==> spec_valid_namespace(r->Ok_0.namespace@)
            && spec_valid_identifier(r->Ok_0.service_name@)
            && spec_valid_identifier(r->Ok_0.port_name@)
            && spec_valid_bind_path(r->Ok_0.bind_path@),
{
    let ghost all_pairs = pairs_view(attrs@);
    let mut namespace: Option<String> = None;
    let mut service_name: Option<String> = None;
    let mut port_name: Option<String> = None;
    let mut bind_path: Option<String> = None;
    let n = attrs.len();
    let mut i: usize = 0;
    proof {
        assert(all_pairs.skip(0) =~= all_pairs);
    }
    while i < n
        invariant
            n == attrs@.len(),
            0 <= i <= n,
            all_pairs == pairs_view(attrs@),
            spec_parse_attrs(all_pairs, empty_acc()) == spec_parse_attrs(
                all_pairs.skip(i as int),
                AttrAcc {
                    namespace: opt_view(namespace),
                    service_name: opt_view(service_name),
                    port_name: opt_view(port_name),
                    bind_path: opt_view(bind_path),
                },
            ),
            namespace is Some ==> spec_valid_namespace(namespace->0@),
            service_name is Some ==> spec_valid_identifier(service_name->0@),
            port_name is Some ==> spec_valid_identifier(port_name->0@),
            bind_path is Some ==> spec_valid_bind_path(bind_path->0@),
        decreases n - i,
    {
        let key: &str = attrs[i].0.as_str();
        let value: &String = &attrs[i].1;
        proof {
            assert(all_pairs.skip(i as int)[0] == (attrs@[i as int].0@, attrs@[i as int].1@));
            assert(all_pairs.skip(i as int).drop_first() =~= all_pairs.skip(i + 1));
        }
        if str_eq(key, "namespace") {
            match validate_namespace(value.as_str()) {
                Ok(_) => {
                    namespace = Some(value.clone());
                },
                Err(e) => {
                    return Err(e);
                },
            }
        } else if str_eq(key, "service_name") {
            match validate_identifier(value.as_str(), "service_name") {
                Ok(_) => {
                    service_name = Some(value.clone());
                },
                Err(e) => {
                    return Err(e);
                },
            }
        } else if str_eq(key, "port_name") {
            match validate_identifier(value.as_str(), "port_name") {
                Ok(_) => {
                    port_name = Some(value.clone());
                },
                Err(e) => {
                    return Err(e);
                },
            }
        } else if str_eq(key, "bind_path") {
            match validate_bind_path(value.as_str()) {
                Ok(_) => {
                    bind_path = Some(value.clone());
                },
                Err(e) => {
                    return Err(e);
                },
            }
        } else {
            let mut msg = String::from_str("Unknown attribute: ");
            msg.append(key);
            return Err(DefinitionError { msg });
        }
        i = i + 1;
    }
    proof {
        assert(all_pairs.skip(i as int) =~= Seq::<(Seq<char>, Seq<char>)>::empty());
    }
    let namespace = match namespace {
        Some(s) => s,
        None => {
            return Err(DefinitionError {
                msg: String::from_str("Missing required attribute: namespace"),
            });
        },
    };
    let service_name = match service_name {
        Some(s) => s,
        None => {
            return Err(DefinitionError {
                msg: String::from_str("Missing required attribute: service_name"),
            });
        },
    };
    let port_name = match port_name {
        Some(s) => s,
        None => {
            return Err(DefinitionError {
                msg: String::from_str("Missing required attribute: port_name"),
            });
        },
    };
    let bind_path = match bind_path {
        Some(s) => s,
        None => {
            return Err(DefinitionError {
                msg: String::from_str("Missing required attribute: bind_path"),
            });
        },
    };
    Ok(ServiceConfig { namespace, service_name, port_name, bind_path })
}

} // verus!
