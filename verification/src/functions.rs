//! The operation model: how a declared handler function becomes a SOAP
//! operation, and how the operation's PascalCase name is derived.

use vstd::prelude::*;
use crate::text::{push_char, spec_upper, to_upper};
use crate::types::{TypeInfo, TypeModel};

verus! {

/// One SOAP operation: its PascalCase wire name, the declared handler
/// function's name, and the descriptors of its request and response types.
#[derive(Debug)]
pub struct SoapOperation {
    pub name: String,
    pub function_name: String,
    pub request_type: TypeInfo,
    pub response_type: TypeInfo,
}

/// The mathematical model of a SOAP operation.
#[verifier::ext_equal]
pub struct OperationModel {
    pub name: Seq<char>,
    pub function_name: Seq<char>,
    pub request_type: TypeModel,
    pub response_type: TypeModel,
}

impl View for SoapOperation {
    type V = OperationModel;

    open spec fn view(&self) -> OperationModel {
        OperationModel {
            name: self.name@,
            function_name: self.function_name@,
            request_type: self.request_type@,
            response_type: self.response_type@,
        }
    }
}

/// A declared handler function as the caller registers it: its name, its
/// request and response type descriptors, and whether the declaration is
/// public and asynchronous.
#[derive(Debug)]
pub struct FunctionDef {
    pub function_name: String,
    pub request_type: TypeInfo,
    pub response_type: TypeInfo,
    pub is_public: bool,
    pub is_async: bool,
}

/// The mathematical model of a declared handler function.
#[verifier::ext_equal]
pub struct FunctionModel {
    pub function_name: Seq<char>,
    pub request_type: TypeModel,
    pub response_type: TypeModel,
    pub is_public: bool,
    pub is_async: bool,
}

impl View for FunctionDef {
    type V = FunctionModel;

    open spec fn view(&self) -> FunctionModel {
        FunctionModel {
            function_name: self.function_name@,
            request_type: self.request_type@,
            response_type: self.response_type@,
            is_public: self.is_public,
            is_async: self.is_async,
        }
    }
}

/// The models of a sequence of declared functions.
pub open spec fn defs_models(s: Seq<FunctionDef>) -> Seq<FunctionModel> {
    Seq::new(s.len(), |i: int| s[i]@)
}

/// The operation a declared function becomes: its name derived from the
/// function name, its descriptors carried over.
pub open spec fn spec_operation_of(d: FunctionModel) -> OperationModel {
    OperationModel {
        name: spec_operation_name(d.function_name),
        function_name: d.function_name,
        request_type: d.request_type,
        response_type: d.response_type,
    }
}

/// The operations of the declared functions: one per function that is
/// public and asynchronous, in declaration order.
pub open spec fn spec_extract_ops(defs: Seq<FunctionModel>) -> Seq<OperationModel> {
    let picked = spec_soap_function_indices(defs);
    Seq::new(picked.len(), |j: int| spec_operation_of(defs[picked[j]]))
}

/// The operation name derived from a function name read from `at_start`:
/// underscores are dropped, and the character after each one (as the very
/// first character) is uppercased.
pub open spec fn cap_segments(s: Seq<char>, at_start: bool) -> Seq<char>
    decreases s.len(),
{
    if s.len() == 0 {
        Seq::empty()
    } else if s[0] == '_' {
        cap_segments(s.drop_first(), true)
    } else {
        seq![if at_start { spec_upper(s[0]) } else { s[0] }] + cap_segments(s.drop_first(), false)
    }
}

/// The PascalCase operation name of a snake_case function name: each
/// `_`-delimited segment is capitalized and the segments are joined.
pub open spec fn spec_operation_name(s: Seq<char>) -> Seq<char> {
    cap_segments(s, true)
}

/// Derives the PascalCase operation name of a function name. The result
/// is a pure function of the input, so the derivation is deterministic.
pub fn generate_operation_name(function_name: &str) -> (r: String)
    ensures
        r@ == spec_operation_name(function_name@),
{
    let n = function_name.unicode_len();
    let mut out = String::new();
    let mut at_start: bool = true;
    let mut i: usize = 0;
    proof {
        assert(function_name@.skip(0) =~= function_name@);
    }
    while i < n
        invariant
            n == function_name@.len(),
            0 <= i <= n,
            spec_operation_name(function_name@) == out@ + cap_segments(
                function_name@.skip(i as int),
                at_start,
            ),
        decreases n - i,
    {
        let c = function_name.get_char(i);
        proof {
            assert(function_name@.skip(i as int)[0] == function_name@[i as int]);
            assert(function_name@.skip(i as int).drop_first() =~= function_name@.skip(i + 1));
        }
        if c == '_' {
            at_start = true;
        } else {
            let d = if at_start {
                to_upper(c)
            } else {
                c
            };
            let ghost old_out = out@;
            push_char(&mut out, d);
            proof {
                assert(out@ + cap_segments(function_name@.skip(i + 1), false) =~= old_out + (seq![
                    d,
                ] + cap_segments(function_name@.skip(i + 1), false)));
            }
            at_start = false;
        }
        i = i + 1;
    }
    proof {
        assert(function_name@.skip(n as int) =~= Seq::<char>::empty());
        assert(out@ + Seq::<char>::empty() =~= out@);
    }
    out
}

/// A function is exposed as a SOAP operation only when its declaration is
/// both public and asynchronous.
pub fn is_valid_soap_function(def: &FunctionDef) -> (r: bool)
    ensures
        r == (def.is_public && def.is_async),
{
    def.is_public && def.is_async
}

/// Builds the SOAP operation of one declared handler function: the
/// operation name is derived from the function name, and the request and
/// response descriptors are carried over unchanged.
pub fn parse_soap_function(def: &FunctionDef) -> (r: SoapOperation)
    ensures
        r.name@ == spec_operation_name(def.function_name@),
        r.function_name@ == def.function_name@,
        r.request_type@ == def.request_type@,
        r.response_type@ == def.response_type@,
{
    SoapOperation {
        name: generate_operation_name(def.function_name.as_str()),
        function_name: def.function_name.clone(),
        request_type: def.request_type.duplicate(),
        response_type: def.response_type.duplicate(),
    }
}

/// The indices of the declared functions that are SOAP operations.
pub open spec fn spec_soap_function_indices(defs: Seq<FunctionModel>) -> Seq<int> {
    Seq::new(defs.len(), |i: int| i).filter(|i: int| defs[i].is_public && defs[i].is_async)
}

/// Extracts the SOAP operations from the declared functions, in declaration
/// order: one operation for each function that is public and asynchronous.
pub fn extract_soap_operations(defs: &Vec<FunctionDef>) -> (r: Vec<SoapOperation>)
    ensures
        crate::types::ops_models(r@) == spec_extract_ops(defs_models(defs@)),
{
    let ghost dms = defs_models(defs@);
    let mut operations: Vec<SoapOperation> = Vec::new();
    let n = defs.len();
    let mut i: usize = 0;
    while i < n
        invariant
            n == defs@.len(),
            dms == defs_models(defs@),
            dms.len() == n,
            0 <= i <= n,
            ({
                let picked = spec_soap_function_indices(dms.take(i as int));
                &&& operations@.len() == picked.len()
                &&& forall|j: int|
                    0 <= j < picked.len() ==> (#[trigger] operations@[j])@ == spec_operation_of(
                        dms[picked[j]],
                    )
            }),
        decreases n - i,
    {
        proof {
            lemma_soap_indices_step(dms, i as int);
        }
        let def = &defs[i];
        if is_valid_soap_function(def) {
            let operation = parse_soap_function(def);
            proof {
                assert(operation@ =~= spec_operation_of(dms[i as int]));
            }
            operations.push(operation);
        }
        i = i + 1;
    }
    proof {
        assert(dms.take(n as int) =~= dms);
        assert(crate::types::ops_models(operations@) =~= spec_extract_ops(dms));
    }
    operations
}

/// Extending the prefix of declared functions by one either appends that
/// function's index to the picked indices or leaves them unchanged.
proof fn lemma_soap_indices_step(defs: Seq<FunctionModel>, i: int)
    requires
        0 <= i < defs.len(),
    ensures
        defs[i].is_public && defs[i].is_async ==> spec_soap_function_indices(defs.take(i + 1))
            =~= spec_soap_function_indices(defs.take(i)).push(i),
        !(defs[i].is_public && defs[i].is_async) ==> spec_soap_function_indices(defs.take(i + 1))
            =~= spec_soap_function_indices(defs.take(i)),
        forall|j: int|
            0 <= j < spec_soap_function_indices(defs.take(i)).len() ==> 0 <= #[trigger]
                spec_soap_function_indices(defs.take(i))[j] < i,
{
    let idx_full = Seq::new(defs.take(i + 1).len(), |k: int| k);
    let idx_pref = Seq::new(defs.take(i).len(), |k: int| k);
    let pred_full = |k: int| defs.take(i + 1)[k].is_public && defs.take(i + 1)[k].is_async;
    let pred_pref = |k: int| defs.take(i)[k].is_public && defs.take(i)[k].is_async;
    assert(idx_full =~= idx_pref.push(i));
    reveal(Seq::filter);
    assert(idx_full.drop_last() =~= idx_pref);
    assert(idx_full.last() == i);
    lemma_filter_congruent(idx_pref, pred_full, pred_pref);
    lemma_filter_in_range(idx_pref, pred_pref);
    lemma_filter_in_range(idx_full, pred_full);
}

/// Filtering a sequence of indices below `n` by pointwise-equal predicates
/// gives the same result.
proof fn lemma_filter_congruent(s: Seq<int>, p: spec_fn(int) -> bool, q: spec_fn(int) -> bool)
    requires
        forall|j: int| 0 <= j < s.len() ==> p(#[trigger] s[j]) == q(s[j]),
    ensures
        s.filter(p) =~= s.filter(q),
    decreases s.len(),
{
    reveal(Seq::filter);
    if s.len() > 0 {
        lemma_filter_congruent(s.drop_last(), p, q);
    }
}

/// Every element of a filtered sequence satisfies the predicate and was an
/// element of the original sequence.
proof fn lemma_filter_in_range(s: Seq<int>, p: spec_fn(int) -> bool)
    ensures
        forall|j: int|
            0 <= j < s.filter(p).len() ==> p(#[trigger] s.filter(p)[j]) && s.contains(
                s.filter(p)[j],
            ),
    decreases s.len(),
{
    reveal(Seq::filter);
    if s.len() > 0 {
        lemma_filter_in_range(s.drop_last(), p);
        assert forall|j: int| 0 <= j < s.filter(p).len() implies p(#[trigger] s.filter(p)[j])
            && s.contains(s.filter(p)[j]) by {
            if j < s.drop_last().filter(p).len() {
                assert(s.drop_last().contains(s.drop_last().filter(p)[j]));
                let w = choose|w: int|
                    0 <= w < s.drop_last().len() && s.drop_last()[w] == s.drop_last().filter(p)[j];
                assert(s[w] == s.drop_last()[w]);
            } else {
                assert(s[s.len() - 1] == s.filter(p)[j]);
            }
        }
    }
}

} // verus!
