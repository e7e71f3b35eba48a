//! The dynamic value model: the tagged union of runtime values and the
//! exact semantics of every operator on it.
//!
//! Booleans are stored as a numeric payload (`0` for false, one `SCALE`
//! unit for true), so that a boolean takes part in arithmetic as its 0/1
//! numeric value. Every operator is a total function that either yields a
//! value or fails with a typed error; each case of §the tables below is
//! pinned by the contracts.

use crate::ast::{Stmt, StmtV, view_names, view_stmts};
use crate::number::{
    SCALE, spec_add, spec_div, spec_mul, spec_neg, spec_render_number, spec_sub, num_add,
    num_div, num_mul, num_neg, num_sub, render_number,
};
use std::rc::Rc;
use vstd::prelude::*;

verus! {

/// The closed family of runtime faults. `OutOfFuel` is the
/// bounded-execution condition: the evaluator runs under an explicit
/// budget on recursion depth and loop iterations, and reports this fault
/// instead of exhausting the host's stack or looping forever.
#[derive(Clone, Copy, Debug, PartialEq, Eq, Structural)]
pub enum RuntimeError {
    TypeMismatch,
    DivisionByZero,
    UndefinedVariable,
    NotCallable,
    ArityMismatch,
    OutOfFuel,
}

/// The built-in that writes its arguments to the output sink.
#[derive(Clone, Copy, Debug)]
pub struct PrintFunc;

/// The built-in that yields the time elapsed since interpreter start,
/// measured deterministically in evaluation steps.
#[derive(Clone, Copy, Debug)]
pub struct ClockFunc;

impl ClockFunc {
    /// A fresh clock; the interpreter's environment keeps the actual
    /// step count.
    pub fn new() -> (r: Self)
        ensures
            r == (ClockFunc {}),
    {
        ClockFunc {}
    }
}

/// A user-defined function value: parameter names, a shared handle to the
/// body, and the scope that was active at its declaration (the closure
/// capture).
#[derive(Debug)]
pub struct LoxFunction {
    name: Vec<u8>,
    params: Vec<Vec<u8>>,
    body: Rc<Vec<Stmt>>,
    scope: usize,
}

/// The mathematical shadow of a user function.
pub struct FunV {
    pub name: Seq<u8>,
    pub params: Seq<Seq<u8>>,
    pub body: Seq<StmtV>,
    pub scope: nat,
}

/// The shadow of a callable value.
pub enum CallV {
    Print,
    Clock,
    Function(FunV),
}

/// A callable value: one of the two built-ins, or a user function.
#[derive(Debug)]
pub enum LoxCallable {
    Print(PrintFunc),
    Clock(ClockFunc),
    Function(LoxFunction),
}

/// The shadow of a runtime value.
pub enum ValueV {
    Str(Seq<u8>),
    Boolean(int),
    Number(int),
    Fn(CallV),
    Null,
}

/// A runtime value. Cheaply copyable through `dup`: a function body is
/// shared, never deep-copied.
#[derive(Debug)]
pub enum Values {
    Str(Vec<u8>),
    /// `0` is false; any other payload is true and prints as `true`. A
    /// `true` literal carries one `SCALE` unit, the numeric 1.
    Boolean(i64),
    /// A fixed-point number, scaled by `SCALE` (see `crate::number`).
    Number(i64),
    Fn(LoxCallable),
    Null,
}

impl LoxFunction {
    pub closed spec fn view(&self) -> FunV {
        FunV {
            name: self.name@,
            params: view_names(self.params@),
            body: view_stmts(self.body@),
            scope: self.scope as nat,
        }
    }

    /// Builds a function value.
    pub fn new(name: Vec<u8>, params: Vec<Vec<u8>>, body: Rc<Vec<Stmt>>, scope: usize) -> (r: Self)
        ensures
            r.view() == (FunV {
                name: name@,
                params: view_names(params@),
                body: view_stmts(body@),
                scope: scope as nat,
            }),
    {
        LoxFunction { name, params, body, scope }
    }

    /// The function's name.
    pub fn name(&self) -> (r: &Vec<u8>)
        ensures
            r@ == self.view().name,
    {
        &self.name
    }

    /// How many parameters the function declares.
    pub fn arity(&self) -> (r: usize)
        ensures
            r == self.view().params.len(),
    {
        proof {
            assert(view_names(self.params@).len() == self.params@.len());
        }
        self.params.len()
    }

    /// The parameter names.
    pub fn params(&self) -> (r: &Vec<Vec<u8>>)
        ensures
            view_names(r@) == self.view().params,
    {
        &self.params
    }

    /// The shared body.
    pub fn body(&self) -> (r: &Rc<Vec<Stmt>>)
        ensures
            view_stmts((**r)@) == self.view().body,
    {
        &self.body
    }

    /// The captured scope.
    pub fn scope(&self) -> (r: usize)
        ensures
            r as nat == self.view().scope,
    {
        self.scope
    }

    /// A second handle to the same function.
    pub fn dup(&self) -> (r: Self)
        ensures
            r.view() == self.view(),
    {
        LoxFunction {
            name: clone_bytes(&self.name),
            params: clone_names(&self.params),
            body: share_body(&self.body),
            scope: self.scope,
        }
    }
}

/// Relies on `Rc::clone`: the clone shares the allocation, so it is the
/// same value.
#[verifier::external_body]
pub fn share_body(v: &Rc<Vec<Stmt>>) -> (r: Rc<Vec<Stmt>>)
    ensures
        r == *v,
{
    Rc::clone(v)
}

/// A byte-for-byte copy.
pub fn clone_bytes(v: &Vec<u8>) -> (r: Vec<u8>)
    ensures
        r@ == v@,
{
    let mut out: Vec<u8> = Vec::new();
    let n = v.len();
    let mut i: usize = 0;
    while i < n
        invariant
            n == v@.len(),
            0 <= i <= n,
            out@ == v@.subrange(0, i as int),
        decreases n - i,
    {
        out.push(v[i]);
        proof {
            assert(out@ =~= v@.subrange(0, i + 1));
        }
        i += 1;
    }
    proof {
        assert(out@ =~= v@);
    }
    out
}

/// A copy of a list of names.
pub fn clone_names(v: &Vec<Vec<u8>>) -> (r: Vec<Vec<u8>>)
    ensures
        view_names(r@) == view_names(v@),
{
    let mut out: Vec<Vec<u8>> = Vec::new();
    let n = v.len();
    let mut i: usize = 0;
    while i < n
        invariant
            n == v@.len(),
            0 <= i <= n,
            out@.len() == i,
            forall|k: int| 0 <= k < i ==> out@[k]@ == v@[k]@,
        decreases n - i,
    {
        out.push(clone_bytes(&v[i]));
        i += 1;
    }
    proof {
        assert(view_names(out@) =~= view_names(v@));
    }
    out
}

impl LoxCallable {
    pub open spec fn view(&self) -> CallV {
        match self {
            LoxCallable::Print(_) => CallV::Print,
            LoxCallable::Clock(_) => CallV::Clock,
            LoxCallable::Function(f) => CallV::Function(f.view()),
        }
    }
}

impl Values {
    pub open spec fn view(&self) -> ValueV {
        match self {
            Values::Str(s) => ValueV::Str(s@),
            Values::Boolean(x) => ValueV::Boolean(*x as int),
            Values::Number(x) => ValueV::Number(*x as int),
            Values::Fn(c) => ValueV::Fn(c.view()),
            Values::Null => ValueV::Null,
        }
    }

    /// A copy of the value; a function is shared, not deep-copied.
    pub fn dup(&self) -> (r: Values)
        ensures
            r.view() == self.view(),
    {
        match self {
            Values::Str(s) => Values::Str(clone_bytes(s)),
            Values::Boolean(x) => Values::Boolean(*x),
            Values::Number(x) => Values::Number(*x),
            Values::Fn(LoxCallable::Print(_)) => Values::Fn(LoxCallable::Print(PrintFunc)),
            Values::Fn(LoxCallable::Clock(_)) => Values::Fn(LoxCallable::Clock(ClockFunc)),
            Values::Fn(LoxCallable::Function(f)) => Values::Fn(LoxCallable::Function(f.dup())),
            Values::Null => Values::Null,
        }
    }
}


/// Truthiness: numbers and booleans are truthy iff nonzero, text iff
/// non-empty, `Null` never, functions always.
pub open spec fn truthy(v: ValueV) -> bool {
    match v {
        ValueV::Boolean(x) => x != 0,
        ValueV::Number(x) => x != 0,
        ValueV::Str(s) => s.len() != 0,
        ValueV::Null => false,
        ValueV::Fn(_) => true,
    }
}

/// The numeric payload of a value that takes part in arithmetic, if any.
pub open spec fn numeric_of(v: ValueV) -> Option<int> {
    match v {
        ValueV::Number(x) => Some(x),
        ValueV::Boolean(x) => Some(x),
        _ => None,
    }
}

/// The table of `+`: two numerics add; exactly one text operand draws
/// the numeric side in as its textual form, on the side it appeared;
/// two texts concatenate; everything else is a type mismatch.
pub open spec fn spec_add_values(a: ValueV, b: ValueV) -> Result<ValueV, RuntimeError> {
    match (a, b) {
        (ValueV::Str(x), ValueV::Str(y)) => Ok(ValueV::Str(x + y)),
        (ValueV::Str(x), _) => match numeric_of(b) {
            Some(n) => Ok(ValueV::Str(x + spec_render_number(n))),
            None => Err(RuntimeError::TypeMismatch),
        },
        (_, ValueV::Str(y)) => match numeric_of(a) {
            Some(n) => Ok(ValueV::Str(spec_render_number(n) + y)),
            None => Err(RuntimeError::TypeMismatch),
        },
        _ => match (numeric_of(a), numeric_of(b)) {
            (Some(x), Some(y)) => Ok(ValueV::Number(spec_add(x, y))),
            _ => Err(RuntimeError::TypeMismatch),
        },
    }
}

/// The table of `-`: numeric operands only.
pub open spec fn spec_sub_values(a: ValueV, b: ValueV) -> Result<ValueV, RuntimeError> {
    match (numeric_of(a), numeric_of(b)) {
        (Some(x), Some(y)) => Ok(ValueV::Number(spec_sub(x, y))),
        _ => Err(RuntimeError::TypeMismatch),
    }
}

/// The table of `*`: numeric operands only.
pub open spec fn spec_mul_values(a: ValueV, b: ValueV) -> Result<ValueV, RuntimeError> {
    match (numeric_of(a), numeric_of(b)) {
        (Some(x), Some(y)) => Ok(ValueV::Number(spec_mul(x, y))),
        _ => Err(RuntimeError::TypeMismatch),
    }
}

/// The table of `/`: a divisor of `Number(0)` fails first, before the
/// `Number / Number` case is attempted; only that case divides.
pub open spec fn spec_div_values(a: ValueV, b: ValueV) -> Result<ValueV, RuntimeError> {
    if b == ValueV::Number(0) {
        Err(RuntimeError::DivisionByZero)
    } else {
        match (a, b) {
            (ValueV::Number(x), ValueV::Number(y)) => Ok(ValueV::Number(spec_div(x, y))),
            _ => Err(RuntimeError::TypeMismatch),
        }
    }
}

/// Structural equality: same-variant numbers, booleans, texts and `Null`
/// compare by content; every cross-variant pair, and any function, is
/// simply unequal.
pub open spec fn spec_eq_values(a: ValueV, b: ValueV) -> bool {
    match (a, b) {
        (ValueV::Number(x), ValueV::Number(y)) => x == y,
        (ValueV::Boolean(x), ValueV::Boolean(y)) => x == y,
        (ValueV::Str(x), ValueV::Str(y)) => x == y,
        (ValueV::Null, ValueV::Null) => true,
        _ => false,
    }
}

/// Lexicographic order on byte text.
pub open spec fn bytes_lt(a: Seq<u8>, b: Seq<u8>) -> bool
    decreases a.len(),
{
    if b.len() == 0 {
        false
    } else if a.len() == 0 {
        true
    } else if a[0] != b[0] {
        a[0] < b[0]
    } else {
        bytes_lt(a.subrange(1, a.len() as int), b.subrange(1, b.len() as int))
    }
}

/// The table of `<`: same-variant numbers, booleans (as numerics) and
/// texts (lexicographically) order; everything else is a type mismatch.
/// The other three comparisons all reduce to this one.
pub open spec fn spec_lt_values(a: ValueV, b: ValueV) -> Result<bool, RuntimeError> {
    match (a, b) {
        (ValueV::Number(x), ValueV::Number(y)) => Ok(x < y),
        (ValueV::Boolean(x), ValueV::Boolean(y)) => Ok(x < y),
        (ValueV::Str(x), ValueV::Str(y)) => Ok(bytes_lt(x, y)),
        _ => Err(RuntimeError::TypeMismatch),
    }
}

/// A boolean value: `0` or one `SCALE` unit, the numeric 0/1.
pub open spec fn bool_v(b: bool) -> ValueV {
    ValueV::Boolean(if b {
        SCALE as int
    } else {
        0
    })
}

/// The text a value prints as.
pub open spec fn spec_render_value(v: ValueV) -> Seq<u8> {
    match v {
        ValueV::Str(s) => s,
        ValueV::Boolean(x) => if x == 0 {
            seq![102u8, 97u8, 108u8, 115u8, 101u8]
        } else {
            seq![116u8, 114u8, 117u8, 101u8]
        },
        ValueV::Number(x) => spec_render_number(x),
        ValueV::Null => seq![78u8, 117u8, 108u8, 108u8],
        ValueV::Fn(_) => seq![65u8, 32u8, 102u8, 117u8, 110u8, 99u8, 116u8, 105u8, 111u8, 110u8],
    }
}

/// Whether `a` orders strictly before `b`, byte for byte.
pub fn bytes_less(a: &Vec<u8>, b: &Vec<u8>) -> (r: bool)
    ensures
        r == bytes_lt(a@, b@),
{
    let na = a.len();
    let nb = b.len();
    proof {
        assert(a@.subrange(0, na as int) =~= a@);
        assert(b@.subrange(0, nb as int) =~= b@);
    }
    let mut i: usize = 0;
    while i < na && i < nb
        invariant
            na == a@.len(),
            nb == b@.len(),
            0 <= i <= na,
            0 <= i <= nb,
            bytes_lt(a@, b@) == bytes_lt(a@.subrange(i as int, na as int), b@.subrange(i as int, nb as int)),
        decreases na - i,
    {
        let ghost sa = a@.subrange(i as int, na as int);
        let ghost sb = b@.subrange(i as int, nb as int);
        if a[i] != b[i] {
            proof {
                assert(sa[0] == a@[i as int]);
                assert(sb[0] == b@[i as int]);
            }
            return a[i] < b[i];
        }
        proof {
            assert(sa[0] == sb[0]);
            assert(sa.subrange(1, sa.len() as int) =~= a@.subrange(i + 1, na as int));
            assert(sb.subrange(1, sb.len() as int) =~= b@.subrange(i + 1, nb as int));
        }
        i += 1;
    }
    proof {
        assert(a@.subrange(i as int, na as int).len() == na - i);
        assert(b@.subrange(i as int, nb as int).len() == nb - i);
    }
    na < nb
}

/// Text concatenation.
fn concat_bytes(a: &Vec<u8>, b: &Vec<u8>) -> (r: Vec<u8>)
    ensures
        r@ == a@ + b@,
{
    let mut out = clone_bytes(a);
    let n = b.len();
    let mut i: usize = 0;
    while i < n
        invariant
            n == b@.len(),
            0 <= i <= n,
            out@ == a@ + b@.subrange(0, i as int),
        decreases n - i,
    {
        out.push(b[i]);
        proof {
            assert(out@ =~= a@ + b@.subrange(0, i + 1));
        }
        i += 1;
    }
    proof {
        assert(out@ =~= a@ + b@);
    }
    out
}

impl Values {
    /// Whether the value counts as true in a condition.
    pub fn is_truthy(&self) -> (r: bool)
        ensures
            r == truthy(self.view()),
    {
        match self {
            Values::Boolean(x) => *x != 0,
            Values::Number(x) => *x != 0,
            Values::Str(s) => s.len() != 0,
            Values::Null => false,
            Values::Fn(_) => true,
        }
    }

    /// The value as a boolean value: its truthiness, encoded 0/1.
    pub fn cast_to_boolean(&self) -> (r: Values)
        ensures
            r.view() == bool_v(truthy(self.view())),
    {
        if self.is_truthy() {
            Values::Boolean(SCALE)
        } else {
            Values::Boolean(0)
        }
    }

    /// A boolean value from a numeric payload: zero is false, anything
    /// else true.
    pub fn to_boolean(x: i64) -> (r: Values)
        ensures
            r.view() == bool_v(x != 0),
    {
        if x == 0 {
            Values::Boolean(0)
        } else {
            Values::Boolean(SCALE)
        }
    }

    /// `self + rhs`, by the table of `spec_add_values`.
    pub fn add(self, rhs: Values) -> (r: Result<Values, RuntimeError>)
        ensures
            match r {
                Ok(v) => spec_add_values(self.view(), rhs.view()) == Ok::<ValueV, RuntimeError>(v.view()),
                Err(e) => spec_add_values(self.view(), rhs.view()) == Err::<ValueV, RuntimeError>(e),
            },
    {
        match (self, rhs) {
            (Values::Str(x), Values::Str(y)) => Ok(Values::Str(concat_bytes(&x, &y))),
            (Values::Str(x), Values::Number(n)) => Ok(Values::Str(concat_bytes(&x, &render_number(n)))),
            (Values::Str(x), Values::Boolean(n)) => Ok(Values::Str(concat_bytes(&x, &render_number(n)))),
            (Values::Number(n), Values::Str(y)) => Ok(Values::Str(concat_bytes(&render_number(n), &y))),
            (Values::Boolean(n), Values::Str(y)) => Ok(Values::Str(concat_bytes(&render_number(n), &y))),
            (Values::Number(x), Values::Number(y)) => Ok(Values::Number(num_add(x, y))),
            (Values::Number(x), Values::Boolean(y)) => Ok(Values::Number(num_add(x, y))),
            (Values::Boolean(x), Values::Number(y)) => Ok(Values::Number(num_add(x, y))),
            (Values::Boolean(x), Values::Boolean(y)) => Ok(Values::Number(num_add(x, y))),
            _ => Err(RuntimeError::TypeMismatch),
        }
    }

    /// `self - rhs`, numeric operands only.
    pub fn sub(self, rhs: Values) -> (r: Result<Values, RuntimeError>)
        ensures
            match r {
                Ok(v) => spec_sub_values(self.view(), rhs.view()) == Ok::<ValueV, RuntimeError>(v.view()),
                Err(e) => spec_sub_values(self.view(), rhs.view()) == Err::<ValueV, RuntimeError>(e),
            },
    {
        match (self, rhs) {
            (Values::Number(x), Values::Number(y)) => Ok(Values::Number(num_sub(x, y))),
            (Values::Number(x), Values::Boolean(y)) => Ok(Values::Number(num_sub(x, y))),
            (Values::Boolean(x), Values::Number(y)) => Ok(Values::Number(num_sub(x, y))),
            (Values::Boolean(x), Values::Boolean(y)) => Ok(Values::Number(num_sub(x, y))),
            _ => Err(RuntimeError::TypeMismatch),
        }
    }

    /// `self * rhs`, numeric operands only.
    pub fn mul(self, rhs: Values) -> (r: Result<Values, RuntimeError>)
        ensures
            match r {
                Ok(v) => spec_mul_values(self.view(), rhs.view()) == Ok::<ValueV, RuntimeError>(v.view()),
                Err(e) => spec_mul_values(self.view(), rhs.view()) == Err::<ValueV, RuntimeError>(e),
            },
    {
        match (self, rhs) {
            (Values::Number(x), Values::Number(y)) => Ok(Values::Number(num_mul(x, y))),
            (Values::Number(x), Values::Boolean(y)) => Ok(Values::Number(num_mul(x, y))),
            (Values::Boolean(x), Values::Number(y)) => Ok(Values::Number(num_mul(x, y))),
            (Values::Boolean(x), Values::Boolean(y)) => Ok(Values::Number(num_mul(x, y))),
            _ => Err(RuntimeError::TypeMismatch),
        }
    }

    /// `self / rhs`: fails with `DivisionByZero` exactly when the divisor
    /// is `Number(0)`, before the `Number / Number` case is attempted.
    pub fn div(self, rhs: Values) -> (r: Result<Values, RuntimeError>)
        ensures
            match r {
                Ok(v) => spec_div_values(self.view(), rhs.view()) == Ok::<ValueV, RuntimeError>(v.view()),
                Err(e) => spec_div_values(self.view(), rhs.view()) == Err::<ValueV, RuntimeError>(e),
            },
            rhs.view() == ValueV::Number(0) <==> r == Err::<Values, RuntimeError>(RuntimeError::DivisionByZero),
    {
        match (self, rhs) {
            (_, Values::Number(0i64)) => Err(RuntimeError::DivisionByZero),
            (Values::Number(x), Values::Number(y)) => Ok(Values::Number(num_div(x, y))),
            _ => Err(RuntimeError::TypeMismatch),
        }
    }

    /// `self == rhs` as a boolean value; never fails.
    pub fn eq(&self, rhs: &Values) -> (r: Values)
        ensures
            r.view() == bool_v(spec_eq_values(self.view(), rhs.view())),
    {
        let same = match (self, rhs) {
            (Values::Number(x), Values::Number(y)) => *x == *y,
            (Values::Boolean(x), Values::Boolean(y)) => *x == *y,
            (Values::Str(x), Values::Str(y)) => bytes_eq(x, y),
            (Values::Null, Values::Null) => true,
            _ => false,
        };
        if same {
            Values::Boolean(SCALE)
        } else {
            Values::Boolean(0)
        }
    }

    /// `self != rhs` as a boolean value; never fails.
    pub fn neq(&self, rhs: &Values) -> (r: Values)
        ensures
            r.view() == bool_v(!spec_eq_values(self.view(), rhs.view())),
    {
        let e = self.eq(rhs);
        match e {
            Values::Boolean(x) => Values::to_boolean(if x == 0 { 1 } else { 0 }),
            _ => Values::Boolean(0),
        }
    }

    /// `self > rhs`.
    pub fn greater(&self, rhs: &Values) -> (r: Result<Values, RuntimeError>)
        ensures
            match r {
                Ok(v) => spec_lt_values(rhs.view(), self.view()) matches Ok(b) && v.view() == bool_v(b),
                Err(e) => spec_lt_values(rhs.view(), self.view()) == Err::<bool, RuntimeError>(e),
            },
    {
        match Values::less_raw(rhs, self) {
            Ok(b) => Ok(Values::to_boolean(if b { 1 } else { 0 })),
            Err(e) => Err(e),
        }
    }

    /// `self >= rhs`.
    pub fn greater_equal(&self, rhs: &Values) -> (r: Result<Values, RuntimeError>)
        ensures
            match r {
                Ok(v) => spec_lt_values(self.view(), rhs.view()) matches Ok(b) && v.view() == bool_v(!b),
                Err(e) => spec_lt_values(self.view(), rhs.view()) == Err::<bool, RuntimeError>(e),
            },
    {
        match Values::less_raw(self, rhs) {
            Ok(b) => Ok(Values::to_boolean(if b { 0 } else { 1 })),
            Err(e) => Err(e),
        }
    }

    /// `self <= rhs`.
    pub fn less_equal(&self, rhs: &Values) -> (r: Result<Values, RuntimeError>)
        ensures
            match r {
                Ok(v) => spec_lt_values(rhs.view(), self.view()) matches Ok(b) && v.view() == bool_v(!b),
                Err(e) => spec_lt_values(rhs.view(), self.view()) == Err::<bool, RuntimeError>(e),
            },
    {
        match Values::less_raw(rhs, self) {
            Ok(b) => Ok(Values::to_boolean(if b { 0 } else { 1 })),
            Err(e) => Err(e),
        }
    }

    /// `self < rhs`.
    pub fn less(&self, rhs: &Values) -> (r: Result<Values, RuntimeError>)
        ensures
            match r {
                Ok(v) => spec_lt_values(self.view(), rhs.view()) matches Ok(b) && v.view() == bool_v(b),
                Err(e) => spec_lt_values(self.view(), rhs.view()) == Err::<bool, RuntimeError>(e),
            },
    {
        match Values::less_raw(self, rhs) {
            Ok(b) => Ok(Values::to_boolean(if b { 1 } else { 0 })),
            Err(e) => Err(e),
        }
    }

    /// The one primitive order all four comparisons reduce to.
    fn less_raw(a: &Values, b: &Values) -> (r: Result<bool, RuntimeError>)
        ensures
            match r {
                Ok(x) => spec_lt_values(a.view(), b.view()) == Ok::<bool, RuntimeError>(x),
                Err(e) => spec_lt_values(a.view(), b.view()) == Err::<bool, RuntimeError>(e),
            },
    {
        match (a, b) {
            (Values::Number(x), Values::Number(y)) => Ok(*x < *y),
            (Values::Boolean(x), Values::Boolean(y)) => Ok(*x < *y),
            (Values::Str(x), Values::Str(y)) => Ok(bytes_less(x, y)),
            _ => Err(RuntimeError::TypeMismatch),
        }
    }

    /// Arithmetic negation: numbers only.
    pub fn negative(&self) -> (r: Result<Values, RuntimeError>)
        ensures
            match r {
                Ok(v) => self.view() matches ValueV::Number(x) && v.view() == ValueV::Number(spec_neg(x)),
                Err(e) => !(self.view() matches ValueV::Number(_)) && e == RuntimeError::TypeMismatch,
            },
    {
        match self {
            Values::Number(x) => Ok(Values::Number(num_neg(*x))),
            _ => Err(RuntimeError::TypeMismatch),
        }
    }

    /// Logical complement: boolean values only; flips the 0/1 payload.
    pub fn not(&self) -> (r: Result<Values, RuntimeError>)
        ensures
            match r {
                Ok(v) => self.view() matches ValueV::Boolean(x) && v.view() == bool_v(x == 0),
                Err(e) => !(self.view() matches ValueV::Boolean(_)) && e == RuntimeError::TypeMismatch,
            },
    {
        match self {
            Values::Boolean(x) => {
                if *x == 0 {
                    Ok(Values::Boolean(SCALE))
                } else {
                    Ok(Values::Boolean(0))
                }
            },
            _ => Err(RuntimeError::TypeMismatch),
        }
    }

    /// The text the value prints as.
    pub fn render(&self) -> (r: Vec<u8>)
        ensures
            r@ == spec_render_value(self.view()),
    {
        match self {
            Values::Str(s) => clone_bytes(s),
            Values::Number(x) => render_number(*x),
            Values::Boolean(x) => {
                let mut out: Vec<u8> = Vec::new();
                if *x == 0 {
                    out.push(102);
                    out.push(97);
                    out.push(108);
                    out.push(115);
                    out.push(101);
                    proof {
                        assert(out@ =~= seq![102u8, 97u8, 108u8, 115u8, 101u8]);
                    }
                } else {
                    out.push(116);
                    out.push(114);
                    out.push(117);
                    out.push(101);
                    proof {
                        assert(out@ =~= seq![116u8, 114u8, 117u8, 101u8]);
                    }
                }
                out
            },
            Values::Null => {
                let mut out: Vec<u8> = Vec::new();
                out.push(78);
                out.push(117);
                out.push(108);
                out.push(108);
                proof {
                    assert(out@ =~= seq![78u8, 117u8, 108u8, 108u8]);
                }
                out
            },
            Values::Fn(_) => {
                let mut out: Vec<u8> = Vec::new();
                out.push(65);
                out.push(32);
                out.push(102);
                out.push(117);
                out.push(110);
                out.push(99);
                out.push(116);
                out.push(105);
                out.push(111);
                out.push(110);
                proof {
                    assert(out@ =~= seq![65u8, 32u8, 102u8, 117u8, 110u8, 99u8, 116u8, 105u8, 111u8, 110u8]);
                }
                out
            },
        }
    }
}

/// Whether two texts are equal, byte for byte.
pub fn bytes_eq(a: &Vec<u8>, b: &Vec<u8>) -> (r: bool)
    ensures
        r == (a@ == b@),
{
    let na = a.len();
    if na != b.len() {
        proof {
            assert(a@.len() != b@.len());
        }
        return false;
    }
    let mut i: usize = 0;
    while i < na
        invariant
            na == a@.len(),
            na == b@.len(),
            0 <= i <= na,
            forall|k: int| 0 <= k < i ==> a@[k] == b@[k],
        decreases na - i,
    {
        if a[i] != b[i] {
            proof {
                assert(a@[i as int] != b@[i as int]);
            }
            return false;
        }
        i += 1;
    }
    proof {
        assert(a@ =~= b@);
    }
    true
}
} // verus!
