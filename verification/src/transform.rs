//! The transformations: from a parsed surface form to an emission plan.
//!
//! A plan is the essential content of the code the engine emits for one
//! occurrence: the canonical order of the fields, the callee or scrutinee,
//! the effective reference modes, and the outer/inner split of a named
//! function. Every transformation rejects a field list that names a field
//! twice, and reorders the rest canonically.

use vstd::prelude::*;

use crate::canon::canonical_or_duplicate;
use crate::canon::distinct_keys;
use crate::canon::dup_err;
use crate::canon::sorted_strict_keys;
use crate::errors::EngineError;
use crate::fields::BasicBind;
use crate::fields::DestructField;
use crate::fields::Param;
use crate::parse::destruct_at;
use crate::parse::icall_at;
use crate::parse::istruct_at;
use crate::parse::Destruct;
use crate::parse::DestructExpression;
use crate::parse::DestructFunction;
use crate::parse::InstructFunctionCall;
use crate::parse::InstructStruct;
use crate::token::Token;

verus! {

/// The plan for a record construction: the carriers to evaluate and wrap,
/// as a tuple in canonical order.
#[derive(Debug, PartialEq)]
pub struct InstructPlan {
    pub fields: Vec<BasicBind>,
}

/// The plan for a named call: build the argument record in canonical order,
/// then invoke the callee with that single record.
#[derive(Debug, PartialEq)]
pub struct CallPlan {
    pub callee: u64,
    pub fields: Vec<BasicBind>,
}

/// The plan for a destructure expression: one step per field in canonical
/// order, each asserting the slot's name and binding its payload by the
/// field's target and effective mode.
#[derive(Debug, PartialEq)]
pub struct DestructExpressionPlan {
    pub list_ref: bool,
    pub scrutinee: u64,
    pub fields: Vec<DestructField>,
}

/// The plan for a named function declaration: an inner function with
/// positional parameters in canonical order, and an outer entry point that
/// destructures the argument record by value and forwards positionally.
#[derive(Debug, PartialEq)]
pub struct DestructFunctionPlan {
    pub name: Vec<u8>,
    pub has_self: bool,
    pub params: Vec<Param>,
    pub ret: Option<u64>,
    pub body: u64,
}

/// The plan for either destructure form.
#[derive(Debug, PartialEq)]
pub enum DestructPlan {
    Expression(DestructExpressionPlan),
    Function(DestructFunctionPlan),
}

/// A construct plan is the construct list, canonically reordered.
pub open spec fn iplan_post(s: InstructStruct, p: InstructPlan) -> bool {
    &&& sorted_strict_keys(p.fields@)
    &&& p.fields@.to_multiset() == s.fields@.to_multiset()
}

/// A call plan keeps the callee and canonically reorders the arguments.
pub open spec fn cplan_post(c: InstructFunctionCall, p: CallPlan) -> bool {
    &&& p.callee == c.callee
    &&& sorted_strict_keys(p.fields@)
    &&& p.fields@.to_multiset() == c.args.fields@.to_multiset()
}

/// A destructure-expression plan keeps the scrutinee and the list-wide
/// marker and canonically reorders the pattern fields.
pub open spec fn eplan_post(d: DestructExpression, p: DestructExpressionPlan) -> bool {
    &&& p.list_ref == d.list_ref
    &&& p.scrutinee == d.expr
    &&& sorted_strict_keys(p.fields@)
    &&& p.fields@.to_multiset() == d.fields.fields@.to_multiset()
}

/// A function plan keeps name, receiver, return type and body, and
/// canonically reorders the declared parameters.
pub open spec fn fplan_post(d: DestructFunction, p: DestructFunctionPlan) -> bool {
    &&& p.name@ == d.name@
    &&& p.has_self == d.has_self
    &&& p.ret == d.ret
    &&& p.body == d.body
    &&& sorted_strict_keys(p.params@)
    &&& p.params@.to_multiset() == d.params@.to_multiset()
}

/// Whether a parsed destructure form has a duplicate-free field list.
pub open spec fn destruct_ok(d: Destruct) -> bool {
    match d {
        Destruct::DestructExpression(e) => distinct_keys(e.fields.fields@),
        Destruct::DestructFunction(f) => distinct_keys(f.params@),
    }
}

/// A destructure plan transforms the form it was parsed from.
pub open spec fn destruct_plan_post(d: Destruct, p: DestructPlan) -> bool {
    match d {
        Destruct::DestructExpression(e) => p matches DestructPlan::Expression(pe) && eplan_post(
            e,
            pe,
        ),
        Destruct::DestructFunction(f) => p matches DestructPlan::Function(pf) && fplan_post(f, pf),
    }
}

/// The duplicate a destructure form was rejected for.
pub open spec fn destruct_dup_err(d: Destruct, e: EngineError) -> bool {
    match d {
        Destruct::DestructExpression(x) => dup_err(x.fields.fields@, e),
        Destruct::DestructFunction(f) => dup_err(f.params@, e),
    }
}

impl InstructStruct {
    /// Plans a record construction: rejects a duplicated field name, else
    /// yields the construct list in canonical order.
    pub fn transform(self) -> (r: Result<InstructPlan, EngineError>)
        ensures
            r is Ok <==> distinct_keys(self.fields@),
            r matches Ok(p) ==> iplan_post(self, p),
            r matches Err(e) ==> dup_err(self.fields@, e),
    {
        match canonical_or_duplicate(self.fields) {
            Ok(fields) => Ok(InstructPlan { fields }),
            Err(e) => Err(e),
        }
    }
}

impl InstructFunctionCall {
    /// Plans a named call: rejects a duplicated argument name, else yields
    /// the callee with its arguments in canonical order.
    pub fn transform(self) -> (r: Result<CallPlan, EngineError>)
        ensures
            r is Ok <==> distinct_keys(self.args.fields@),
            r matches Ok(p) ==> cplan_post(self, p),
            r matches Err(e) ==> dup_err(self.args.fields@, e),
    {
        let callee = self.callee;
        match canonical_or_duplicate(self.args.fields) {
            Ok(fields) => Ok(CallPlan { callee, fields }),
            Err(e) => Err(e),
        }
    }
}

impl DestructExpression {
    /// Plans a destructure expression: rejects a duplicated pattern name,
    /// else yields the pattern fields in canonical order.
    pub fn transform(self) -> (r: Result<DestructExpressionPlan, EngineError>)
        ensures
            r is Ok <==> distinct_keys(self.fields.fields@),
            r matches Ok(p) ==> eplan_post(self, p),
            r matches Err(e) ==> dup_err(self.fields.fields@, e),
    {
        let list_ref = self.list_ref;
        let scrutinee = self.expr;
        match canonical_or_duplicate(self.fields.fields) {
            Ok(fields) => Ok(DestructExpressionPlan { list_ref, scrutinee, fields }),
            Err(e) => Err(e),
        }
    }
}

impl DestructFunction {
    /// Plans a named function declaration: rejects a duplicated parameter
    /// name, else yields the declaration with its parameters in canonical
    /// order, to be split into the positional inner function and the
    /// record-accepting outer one.
    pub fn transform(self) -> (r: Result<DestructFunctionPlan, EngineError>)
        ensures
            r is Ok <==> distinct_keys(self.params@),
            r matches Ok(p) ==> fplan_post(self, p),
            r matches Err(e) ==> dup_err(self.params@, e),
    {
        let DestructFunction { name, has_self, params, ret, body } = self;
        match canonical_or_duplicate(params) {
            Ok(params) => Ok(DestructFunctionPlan { name, has_self, params, ret, body }),
            Err(e) => Err(e),
        }
    }
}

impl Destruct {
    /// Plans either destructure form.
    pub fn transform(self) -> (r: Result<DestructPlan, EngineError>)
        ensures
            r is Ok <==> destruct_ok(self),
            r matches Ok(p) ==> destruct_plan_post(self, p),
            r matches Err(e) ==> destruct_dup_err(self, e),
    {
        match self {
            Destruct::DestructExpression(e) => match e.transform() {
                Ok(p) => Ok(DestructPlan::Expression(p)),
                Err(err) => Err(err),
            },
            Destruct::DestructFunction(f) => match f.transform() {
                Ok(p) => Ok(DestructPlan::Function(p)),
                Err(err) => Err(err),
            },
        }
    }
}

/// Expands a record construction `name: expr, ...`: parses the construct
/// list and plans the canonical tuple of carriers.
pub fn instruct(tokens: &Vec<Token>) -> (r: Result<InstructPlan, EngineError>)
    ensures
        r is Ok <==> exists|s: InstructStruct|
            #[trigger] istruct_at(tokens@, s) && distinct_keys(s.fields@),
        r matches Ok(p) ==> exists|s: InstructStruct|
            #[trigger] istruct_at(tokens@, s) && iplan_post(s, p),
        r matches Err(e) ==> e is Syntax || exists|s: InstructStruct|
            #[trigger] istruct_at(tokens@, s) && dup_err(s.fields@, e),
{
    let s = match InstructStruct::parse(tokens) {
        Ok(s) => s,
        Err(e) => {
            return Err(e);
        },
    };
    let ghost s0 = s;
    match s.transform() {
        Ok(p) => Ok(p),
        Err(e) => {
            proof {
                assert forall|s2: InstructStruct| #[trigger]
                    istruct_at(tokens@, s2) implies !distinct_keys(s2.fields@) by {
                    crate::parse::lemma_bind_list_keys(tokens@, 0, s0.fields@, s2.fields@);
                    crate::canon::lemma_key_seq_eq_distinct(s0.fields@, s2.fields@);
                }
            }
            Err(e)
        },
    }
}

/// Expands a named call `callee, { name: expr, ... }`: parses the call and
/// plans the canonical argument record for the single-record invocation.
pub fn call(tokens: &Vec<Token>) -> (r: Result<CallPlan, EngineError>)
    ensures
        r is Ok <==> exists|c: InstructFunctionCall|
            #[trigger] icall_at(tokens@, c) && distinct_keys(c.args.fields@),
        r matches Ok(p) ==> exists|c: InstructFunctionCall|
            #[trigger] icall_at(tokens@, c) && cplan_post(c, p),
        r matches Err(e) ==> e is Syntax || exists|c: InstructFunctionCall|
            #[trigger] icall_at(tokens@, c) && dup_err(c.args.fields@, e),
{
    let c = match InstructFunctionCall::parse(tokens) {
        Ok(c) => c,
        Err(e) => {
            return Err(e);
        },
    };
    let ghost c0 = c;
    match c.transform() {
        Ok(p) => Ok(p),
        Err(e) => {
            proof {
                assert forall|c2: InstructFunctionCall| #[trigger]
                    icall_at(tokens@, c2) implies !distinct_keys(c2.args.fields@) by {
                    crate::parse::lemma_bind_list_keys(
                        tokens@,
                        3,
                        c0.args.fields@,
                        c2.args.fields@,
                    );
                    crate::canon::lemma_key_seq_eq_distinct(c0.args.fields@, c2.args.fields@);
                }
            }
            Err(e)
        },
    }
}

/// Expands either destructure form, `let [ref] { fields } = expr` or
/// `fn name([self,] { fields }) [-> Ret] { body }`, deciding by the leading
/// token.
pub fn destruct(tokens: &Vec<Token>) -> (r: Result<DestructPlan, EngineError>)
    ensures
        r is Ok <==> exists|d: Destruct| #[trigger] destruct_at(tokens@, d) && destruct_ok(d),
        r matches Ok(p) ==> exists|d: Destruct|
            #[trigger] destruct_at(tokens@, d) && destruct_plan_post(d, p),
        r matches Err(e) ==> e is Syntax || exists|d: Destruct|
            #[trigger] destruct_at(tokens@, d) && destruct_dup_err(d, e),
{
    let d = match Destruct::parse(tokens) {
        Ok(d) => d,
        Err(e) => {
            return Err(e);
        },
    };
    let ghost d0 = d;
    match d.transform() {
        Ok(p) => Ok(p),
        Err(e) => {
            proof {
                assert forall|d2: Destruct| #[trigger]
                    destruct_at(tokens@, d2) implies !destruct_ok(d2) by {
                    match d0 {
                        Destruct::DestructExpression(e1) => {
                            let e2 = d2->DestructExpression_0;
                            let i1 = crate::parse::dexpr_brace(tokens@);
                            crate::parse::lemma_dfield_list_keys(
                                tokens@,
                                i1 + 1,
                                e1.fields.fields@,
                                e2.fields.fields@,
                            );
                            crate::canon::lemma_key_seq_eq_distinct(
                                e1.fields.fields@,
                                e2.fields.fields@,
                            );
                        },
                        Destruct::DestructFunction(f1) => {
                            let f2 = d2->DestructFunction_0;
                            let i4 = crate::parse::dfun_brace(tokens@);
                            crate::parse::lemma_param_list_keys(
                                tokens@,
                                i4 + 1,
                                f1.params@,
                                f2.params@,
                            );
                            crate::canon::lemma_key_seq_eq_distinct(f1.params@, f2.params@);
                        },
                    }
                }
            }
            Err(e)
        },
    }
}

} // verus!
