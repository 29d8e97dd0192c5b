//! The value model: the tagged value type, function values, the escape
//! signals of non-local control flow, and the evaluation errors.
//!
//! Vectors and dictionaries have shared ownership: a value holds only a
//! handle into the interpreter's store, so copying a value between bindings
//! aliases the same underlying storage. Copying a value is therefore exact
//! (`clone_value` returns a value equal to its argument), and mutation
//! through one alias is visible through every other.

use vstd::prelude::*;
use std::rc::Rc;
use crate::ast::Stmt;

verus! {

/// The built-in host functions a native function value can name.
#[derive(Copy, Clone, PartialEq, Eq, Structural, Debug)]
pub enum NativeFn {
    Print,
}

#[allow(inconsistent_fields)]
pub enum Func {
    User {
        name: Option<String>,
        params: Rc<Vec<String>>,
        body: Rc<Stmt>,
        /// Handle of the captured environment frame in the interpreter's
        /// store of captured environments, if this function is a closure.
        captured_env: Option<usize>,
    },
    Native {
        name: String,
        /// The fixed arity to validate calls against, if any.
        params: Option<usize>,
        func: NativeFn,
        /// An optional bound receiver, passed as a leading argument.
        receiver: Option<Box<Value>>,
    },
}

pub enum Value {
    Nil,
    Num(i64),
    String(String),
    Bool(bool),
    /// Handle into the interpreter's store of vectors.
    Vec(usize),
    /// Handle into the interpreter's store of dictionaries.
    Dict(usize),
    /// The half-open integer interval `[l, r)`.
    Range(i64, i64),
    Func(Func),
}

/// A binding: a value plus the flag that projects it into subprocess
/// environments.
pub struct Var {
    pub val: Value,
    pub is_exp: bool,
}

/// One lexical scope: bindings in definition order, names unique.
pub type Frame = Vec<(String, Var)>;

/// The internal control-flow channel: expected signals handled by loop and
/// function execution, never errors.
pub enum Escape {
    Break,
    Continue,
    Return(Value),
}

/// A local evaluation failure; unrecoverable at the point of detection.
#[derive(Copy, Clone, PartialEq, Eq, Structural, Debug)]
pub enum EvalError {
    UnboundName,
    TypeMismatch,
    BadIndex,
    IndexOutOfBounds,
    MissingKey,
    BadAssignTarget,
    RangeTypeError,
    NotCallable,
    CallArityError,
    /// The process launcher reported a spawn or wiring failure.
    ProcessError,
    /// An escape signal reached the top-level statement loop unhandled.
    EscapeAtTopLevel,
    /// The run's step budget ran out: user-function calls nested, or loop
    /// iterations run, beyond the interpreter's budget.
    FuelExhausted,
}

/// What stops a statement from running to completion: an escape signal or an
/// error. The two channels stay distinct.
pub enum Flow {
    Esc(Escape),
    Fail(EvalError),
}

/// Relies on `Rc::clone`: the clone is another handle to the same
/// allocation, so it equals the original.
#[verifier::external_body]
pub fn rc_clone<T>(b: &Rc<T>) -> (res: Rc<T>)
    ensures
        res == *b,
{
    b.clone()
}

/// Truthiness: everything except `Nil` and `Bool(false)` counts as true;
/// zero, the empty string and empty containers are all truthy.
pub open spec fn spec_truthy(v: Value) -> bool {
    match v {
        Value::Nil => false,
        Value::Bool(b) => b,
        _ => true,
    }
}

impl Value {
    pub fn is_truthy(&self) -> (r: bool)
        ensures
            r == spec_truthy(*self),
    {
        match self {
            Value::Nil => false,
            Value::Bool(b) => *b,
            _ => true,
        }
    }
}

/// Well-formedness of a value against the sizes of the interpreter's stores:
/// every handle it carries points inside the store it belongs to.
pub open spec fn value_wf(v: Value, nv: nat, nd: nat, ne: nat) -> bool
    decreases v,
{
    match v {
        Value::Vec(h) => h < nv,
        Value::Dict(h) => h < nd,
        Value::Func(f) => func_wf(f, nv, nd, ne),
        _ => true,
    }
}

pub open spec fn func_wf(f: Func, nv: nat, nd: nat, ne: nat) -> bool
    decreases f,
{
    match f {
        Func::User { captured_env, .. } => match captured_env {
            Some(h) => h < ne,
            None => true,
        },
        Func::Native { receiver, .. } => match receiver {
            Some(b) => value_wf(*b, nv, nd, ne),
            None => true,
        },
    }
}

pub open spec fn var_wf(v: Var, nv: nat, nd: nat, ne: nat) -> bool {
    value_wf(v.val, nv, nd, ne)
}

/// Every binding of a frame is well formed.
pub open spec fn frame_wf(f: Seq<(String, Var)>, nv: nat, nd: nat, ne: nat) -> bool {
    forall|i: int| 0 <= i < f.len() ==> var_wf(#[trigger] f[i].1, nv, nd, ne)
}

/// A value stays well formed when the stores only grow.
pub proof fn lemma_value_wf_mono(v: Value, nv1: nat, nd1: nat, ne1: nat, nv2: nat, nd2: nat, ne2: nat)
    requires
        value_wf(v, nv1, nd1, ne1),
        nv1 <= nv2,
        nd1 <= nd2,
        ne1 <= ne2,
    ensures
        value_wf(v, nv2, nd2, ne2),
    decreases v,
{
    match v {
        Value::Func(f) => match f {
            Func::Native { receiver: Some(b), .. } => {
                lemma_value_wf_mono(*b, nv1, nd1, ne1, nv2, nd2, ne2);
            },
            _ => {},
        },
        _ => {},
    }
}

/// Copying a value copies scalars, shares container handles and shares the
/// pieces of function values: the copy equals the original.
pub fn clone_value(v: &Value) -> (r: Value)
    ensures
        r == *v,
    decreases v,
{
    match v {
        Value::Nil => Value::Nil,
        Value::Num(n) => Value::Num(*n),
        Value::String(s) => Value::String(s.clone()),
        Value::Bool(b) => Value::Bool(*b),
        Value::Vec(h) => Value::Vec(*h),
        Value::Dict(h) => Value::Dict(*h),
        Value::Range(l, r2) => Value::Range(*l, *r2),
        Value::Func(f) => Value::Func(clone_func(f)),
    }
}

pub fn clone_func(f: &Func) -> (r: Func)
    ensures
        r == *f,
    decreases f,
{
    match f {
        Func::User { name, params, body, captured_env } => Func::User {
            name: match name {
                Some(s) => Some(s.clone()),
                None => None,
            },
            params: rc_clone(params),
            body: rc_clone(body),
            captured_env: *captured_env,
        },
        Func::Native { name, params, func, receiver } => Func::Native {
            name: name.clone(),
            params: *params,
            func: *func,
            receiver: match receiver {
                Some(b) => Some(Box::new(clone_value(&**b))),
                None => None,
            },
        },
    }
}

pub fn clone_var(v: &Var) -> (r: Var)
    ensures
        r == *v,
{
    Var { val: clone_value(&v.val), is_exp: v.is_exp }
}

/// Function equality: user functions compare by name alone, and an anonymous
/// user function equals nothing, not even itself; native functions are never
/// equal to anything.
pub open spec fn spec_func_eq(a: Func, b: Func) -> bool {
    match (a, b) {
        (Func::User { name: Some(n1), .. }, Func::User { name: Some(n2), .. }) => n1@ == n2@,
        _ => false,
    }
}

pub fn func_eq(a: &Func, b: &Func) -> (r: bool)
    ensures
        r == spec_func_eq(*a, *b),
{
    match (a, b) {
        (Func::User { name: Some(n1), .. }, Func::User { name: Some(n2), .. }) => *n1 == *n2,
        _ => false,
    }
}

} // verus!
