use vstd::prelude::*;
use vstd::slice::slice_subrange;
use crate::number::{equal, less, ArithOp};
use crate::object::{copy_objects, lemma_lambda_view, lemma_list_view, names, terms, text_eq, Object, Term};
pub use crate::scope::Scope;
use crate::scope::{child, lookup};
use crate::semantics::{
    bind_all, call_value, definition_value, each_value, if_value, is_operator,
    kernel_of, kernel_ok, lambda_value, list_value, object_value, op_value, operator_value,
    outcome, pairs_value, symbol_names, symbol_value, values_only, EvalError, Misfit, Miscount,
};

verus! {

/// Whether `name` is one of the eight binary operators.
pub fn is_operator_name(name: &str) -> (r: bool)
    ensures
        r == is_operator(name@),
{
    text_eq(name, "+") || text_eq(name, "-") || text_eq(name, "*") || text_eq(name, "/")
        || text_eq(name, "<") || text_eq(name, ">") || text_eq(name, "=") || text_eq(name, "!=")
}

/// Applies a binary operator to two evaluated operands. Both must be
/// numbers. Arithmetic is done by `kernel`; the comparisons are decided here.
pub fn apply_operator<F: Fn(ArithOp, u64, u64) -> u64>(
    function: &str,
    left: &Object,
    right: &Object,
    kernel: &F,
) -> (r: Result<Object, EvalError>)
    requires
        is_operator(function@),
        kernel_ok(kernel),
    ensures
        outcome(r) == operator_value(function@, left@, right@, kernel_of(kernel)),
{
    let a: u64 = match left {
        Object::Float(n) => *n,
        _ => {
            return Err(EvalError::TypeError(Misfit::LeftOperand));
        },
    };
    let b: u64 = match right {
        Object::Float(n) => *n,
        _ => {
            return Err(EvalError::TypeError(Misfit::RightOperand));
        },
    };
    if text_eq(function, "+") {
        Ok(Object::Float(kernel(ArithOp::Add, a, b)))
    } else if text_eq(function, "-") {
        Ok(Object::Float(kernel(ArithOp::Sub, a, b)))
    } else if text_eq(function, "*") {
        Ok(Object::Float(kernel(ArithOp::Mul, a, b)))
    } else if text_eq(function, "/") {
        Ok(Object::Float(kernel(ArithOp::Div, a, b)))
    } else if text_eq(function, "<") {
        Ok(Object::Bool(less(a, b)))
    } else if text_eq(function, ">") {
        Ok(Object::Bool(less(b, a)))
    } else if text_eq(function, "=") {
        Ok(Object::Bool(equal(a, b)))
    } else {
        Ok(Object::Bool(!equal(a, b)))
    }
}

/// Evaluates a symbol: the value that the scope binds to it.
pub fn eval_symbol(symbol: &str, scope: &Scope) -> (r: Result<Object, EvalError>)
    ensures
        outcome(r) == symbol_value(symbol@, scope@),
{
    match scope.get(symbol) {
        Some(o) => Ok(o),
        None => Err(EvalError::UnboundSymbol(symbol.to_owned())),
    }
}

/// Builds a function value from the operands of a `lambda` form: a list of
/// parameter symbols and a body list. Nothing of the scope is captured.
pub fn eval_lambda(list: &[Object]) -> (r: Result<Object, EvalError>)
    ensures
        outcome(r) == lambda_value(terms(list@)),
{
    if list.len() != 2 {
        return Err(EvalError::ArityError(Miscount::Lambda));
    }
    let params = match &list[0] {
        Object::List(l) => {
            proof {
                lemma_list_view(*l);
            }
            let mut params: Vec<String> = Vec::new();
            let mut i: usize = 0;
            while i < l.len()
                invariant
                    i <= l.len(),
                    params@.len() == i,
                    list.len() == 2,
                    terms(list@)[0] == Term::List(terms(l@)),
                    forall|j: int| 0 <= j < i ==> #[trigger] terms(l@)[j] is Symbol,
                    forall|j: int| 0 <= j < i ==> params@[j]@ == terms(l@)[j]->Symbol_0,
                decreases l.len() - i,
            {
                if let Object::Symbol(p) = &l[i] {
                    params.push(p.clone());
                } else {
                    proof {
                        assert(!(terms(l@)[i as int] is Symbol));
                    }
                    return Err(EvalError::TypeError(Misfit::ParameterName));
                }
                i += 1;
            }
            proof {
                assert(names(params@) =~= symbol_names(terms(l@)));
            }
            params
        },
        _ => {
            return Err(EvalError::TypeError(Misfit::ParameterList));
        },
    };
    match &list[1] {
        Object::List(b) => {
            let body = copy_objects(b);
            proof {
                lemma_list_view(*b);
                lemma_lambda_view(params, body);
            }
            Ok(Object::Lambda(params, body))
        },
        _ => Err(EvalError::TypeError(Misfit::LambdaBody)),
    }
}

/// Evaluates `object` in `scope`. Literals give themselves, a symbol gives
/// its binding, a list is a special form, a call or a sequence, and a bare
/// function value gives nothing. `fuel` is how deep lists and calls may nest
/// before the evaluation is given up.
pub fn eval_object<F: Fn(ArithOp, u64, u64) -> u64>(
    object: &Object,
    scope: &mut Scope,
    fuel: usize,
    kernel: &F,
) -> (r: Result<Object, EvalError>)
    requires
        old(scope)@.len() > 0,
        kernel_ok(kernel),
    ensures
        (final(scope)@, outcome(r)) == object_value(
            object@,
            old(scope)@,
            fuel as nat,
            kernel_of(kernel),
        ),
        final(scope)@.len() == old(scope)@.len(),
    decreases fuel, 0nat,
{
    match object {
        Object::Void => Ok(Object::Void),
        Object::Lambda(p, b) => {
            proof {
                lemma_lambda_view(*p, *b);
            }
            Ok(Object::Void)
        },
        Object::Bool(b) => Ok(Object::Bool(*b)),
        Object::Float(f) => Ok(Object::Float(*f)),
        Object::Symbol(s) => eval_symbol(s.as_str(), scope),
        Object::List(l) => {
            proof {
                lemma_list_view(*l);
            }
            if fuel == 0 {
                Err(EvalError::DepthExceeded)
            } else {
                eval_list(l.as_slice(), scope, fuel - 1, kernel)
            }
        },
    }
}

/// Evaluates a list. Headed by a symbol it is an operator form, a `define`,
/// an `if`, a `lambda` or a call; otherwise every element is evaluated from
/// left to right and the results that are not void are returned as a list,
/// so that the empty list gives the empty list.
pub fn eval_list<F: Fn(ArithOp, u64, u64) -> u64>(
    list: &[Object],
    scope: &mut Scope,
    fuel: usize,
    kernel: &F,
) -> (r: Result<Object, EvalError>)
    requires
        old(scope)@.len() > 0,
        kernel_ok(kernel),
    ensures
        (final(scope)@, outcome(r)) == list_value(
            terms(list@),
            old(scope)@,
            fuel as nat,
            kernel_of(kernel),
        ),
        final(scope)@.len() == old(scope)@.len(),
    decreases fuel, 2nat,
{
    if list.len() > 0 {
        if let Object::Symbol(s) = &list[0] {
            let rest = slice_subrange(list, 1, list.len());
            proof {
                assert(terms(rest@) =~= terms(list@).subrange(1, list@.len() as int));
            }
            let name = s.as_str();
            if is_operator_name(name) {
                return eval_op(name, rest, scope, fuel, kernel);
            } else if text_eq(name, "define") {
                return eval_definition(rest, scope, fuel, kernel);
            } else if text_eq(name, "if") {
                return eval_if(rest, scope, fuel, kernel);
            } else if text_eq(name, "lambda") {
                return eval_lambda(rest);
            } else {
                return eval_function_call(name, rest, scope, fuel, kernel);
            }
        }
    }
    let ghost start = scope@;
    let ghost k = kernel_of(kernel);
    let ghost mut all: Seq<Term> = Seq::empty();
    let mut out: Vec<Object> = Vec::new();
    let mut i: usize = 0;
    proof {
        assert(terms(out@) =~= values_only(all));
    }
    while i < list.len()
        invariant
            i <= list.len(),
            scope@.len() == start.len(),
            start == old(scope)@,
            start.len() > 0,
            kernel_ok(kernel),
            k == kernel_of(kernel),
            terms(out@) == values_only(all),
            !(terms(list@).len() > 0 && terms(list@)[0] is Symbol),
            each_value(terms(list@), 0, Seq::empty(), start, fuel as nat, k) == each_value(
                terms(list@),
                i as nat,
                all,
                scope@,
                fuel as nat,
                k,
            ),
        decreases list.len() - i,
    {
        let ghost before = out@;
        match eval_object(&list[i], scope, fuel, kernel) {
            Err(e) => {
                return Err(e);
            },
            Ok(v) => {
                proof {
                    assert(all.push(v@).drop_last() =~= all);
                    all = all.push(v@);
                }
                match v {
                    Object::Void => {},
                    _ => {
                        out.push(v);
                        proof {
                            assert(terms(out@) =~= terms(before).push(v@));
                        }
                    },
                }
            },
        }
        i += 1;
    }
    proof {
        lemma_list_view(out);
    }
    Ok(Object::List(out))
}

/// Evaluates a binary operator form: exactly two operand expressions, the
/// left one evaluated before the right one, both giving numbers.
pub fn eval_op<F: Fn(ArithOp, u64, u64) -> u64>(
    function: &str,
    body: &[Object],
    scope: &mut Scope,
    fuel: usize,
    kernel: &F,
) -> (r: Result<Object, EvalError>)
    requires
        is_operator(function@),
        old(scope)@.len() > 0,
        kernel_ok(kernel),
    ensures
        (final(scope)@, outcome(r)) == op_value(
            function@,
            terms(body@),
            old(scope)@,
            fuel as nat,
            kernel_of(kernel),
        ),
        final(scope)@.len() == old(scope)@.len(),
    decreases fuel, 1nat,
{
    if body.len() != 2 {
        return Err(EvalError::ArityError(Miscount::Operator));
    }
    proof {
        reveal_with_fuel(each_value, 3);
    }
    let left = match eval_object(&body[0], scope, fuel, kernel) {
        Ok(v) => v,
        Err(e) => {
            return Err(e);
        },
    };
    let right = match eval_object(&body[1], scope, fuel, kernel) {
        Ok(v) => v,
        Err(e) => {
            return Err(e);
        },
    };
    apply_operator(function, &left, &right, kernel)
}

/// Evaluates the operands of a `define`: key and value pairs, bound in order
/// in the current frame, each value evaluated before its key is bound. The
/// result is the last operand evaluated once more.
pub fn eval_definition<F: Fn(ArithOp, u64, u64) -> u64>(
    list: &[Object],
    scope: &mut Scope,
    fuel: usize,
    kernel: &F,
) -> (r: Result<Object, EvalError>)
    requires
        old(scope)@.len() > 0,
        kernel_ok(kernel),
    ensures
        (final(scope)@, outcome(r)) == definition_value(
            terms(list@),
            old(scope)@,
            fuel as nat,
            kernel_of(kernel),
        ),
        final(scope)@.len() == old(scope)@.len(),
    decreases fuel, 1nat,
{
    let n: usize = list.len();
    if n % 2 != 0 {
        return Err(EvalError::ArityError(Miscount::OddDefinition));
    } else if n == 0 {
        return Err(EvalError::ArityError(Miscount::EmptyDefinition));
    }
    let ghost start = scope@;
    let ghost k = kernel_of(kernel);
    let mut i: usize = 0;
    while i < n
        invariant
            i <= n,
            n == list.len(),
            n % 2 == 0,
            i % 2 == 0,
            scope@.len() == start.len(),
            start == old(scope)@,
            start.len() > 0,
            kernel_ok(kernel),
            k == kernel_of(kernel),
            pairs_value(terms(list@), 0, start, fuel as nat, k) == pairs_value(
                terms(list@),
                i as nat,
                scope@,
                fuel as nat,
                k,
            ),
        decreases n - i,
    {
        let v = match eval_object(&list[i + 1], scope, fuel, kernel) {
            Ok(v) => v,
            Err(e) => {
                return Err(e);
            },
        };
        match &list[i] {
            Object::Symbol(s) => {
                scope.set(s.as_str(), v);
            },
            _ => {
                return Err(EvalError::TypeError(Misfit::DefinitionKey));
            },
        }
        i += 2;
    }
    eval_object(&list[n - 1], scope, fuel, kernel)
}

/// Evaluates the operands of an `if`: a condition that gives a boolean, and
/// two branches of which only the chosen one is evaluated.
pub fn eval_if<F: Fn(ArithOp, u64, u64) -> u64>(
    list: &[Object],
    scope: &mut Scope,
    fuel: usize,
    kernel: &F,
) -> (r: Result<Object, EvalError>)
    requires
        old(scope)@.len() > 0,
        kernel_ok(kernel),
    ensures
        (final(scope)@, outcome(r)) == if_value(
            terms(list@),
            old(scope)@,
            fuel as nat,
            kernel_of(kernel),
        ),
        final(scope)@.len() == old(scope)@.len(),
    decreases fuel, 1nat,
{
    if list.len() != 3 {
        return Err(EvalError::ArityError(Miscount::Conditional));
    }
    let cond = match eval_object(&list[0], scope, fuel, kernel) {
        Ok(Object::Bool(b)) => b,
        Ok(_) => {
            return Err(EvalError::TypeError(Misfit::Condition));
        },
        Err(e) => {
            return Err(e);
        },
    };
    if cond {
        eval_object(&list[1], scope, fuel, kernel)
    } else {
        eval_object(&list[2], scope, fuel, kernel)
    }
}

/// Calls the function bound to `name`. The arguments, as many as the
/// function has parameters, are evaluated in the caller's scope and bound to
/// the parameters in a new frame inside it; the body is evaluated there as
/// one list, and the frame is dropped again.
pub fn eval_function_call<F: Fn(ArithOp, u64, u64) -> u64>(
    name: &str,
    arguments: &[Object],
    scope: &mut Scope,
    fuel: usize,
    kernel: &F,
) -> (r: Result<Object, EvalError>)
    requires
        old(scope)@.len() > 0,
        kernel_ok(kernel),
    ensures
        (final(scope)@, outcome(r)) == call_value(
            name@,
            terms(arguments@),
            old(scope)@,
            fuel as nat,
            kernel_of(kernel),
        ),
        final(scope)@.len() == old(scope)@.len(),
    decreases fuel, 1nat,
{
    let function = match scope.get(name) {
        Some(f) => f,
        None => {
            return Err(EvalError::UnboundSymbolFunction(name.to_owned()));
        },
    };
    match function {
        Object::Lambda(p, b) => {
            proof {
                lemma_lambda_view(p, b);
            }
            if p.len() != arguments.len() {
                return Err(EvalError::ArityError(Miscount::Call));
            }
            let ghost start = scope@;
            let ghost k = kernel_of(kernel);
            let mut values: Vec<Object> = Vec::new();
            let mut i: usize = 0;
            proof {
                assert(terms(values@) =~= Seq::<Term>::empty());
            }
            while i < arguments.len()
                invariant
                    i <= arguments.len(),
                    values@.len() == i,
                    scope@.len() == start.len(),
                    start == old(scope)@,
                    start.len() > 0,
                    p.len() == arguments.len(),
                    lookup(start, name@) == Some(Term::Lambda(names(p@), terms(b@))),
                    kernel_ok(kernel),
                    k == kernel_of(kernel),
                    each_value(terms(arguments@), 0, Seq::empty(), start, fuel as nat, k)
                        == each_value(
                        terms(arguments@),
                        i as nat,
                        terms(values@),
                        scope@,
                        fuel as nat,
                        k,
                    ),
                decreases arguments.len() - i,
            {
                let ghost before = values@;
                match eval_object(&arguments[i], scope, fuel, kernel) {
                    Err(e) => {
                        return Err(e);
                    },
                    Ok(v) => {
                        values.push(v);
                        proof {
                            assert(terms(values@) =~= terms(before).push(v@));
                        }
                    },
                }
                i += 1;
            }
            let ghost inner = child(scope@);
            scope.enter();
            let mut j: usize = 0;
            while j < p.len()
                invariant
                    j <= p.len(),
                    p.len() == values.len(),
                    scope@.len() == start.len() + 1,
                    bind_all(inner, names(p@), terms(values@), 0) == bind_all(
                        scope@,
                        names(p@),
                        terms(values@),
                        j as nat,
                    ),
                decreases p.len() - j,
            {
                scope.set(p[j].as_str(), values[j].duplicate());
                j += 1;
            }
            let body = Object::List(b);
            proof {
                lemma_list_view(b);
            }
            let r = eval_object(&body, scope, fuel, kernel);
            scope.leave();
            r
        },
        _ => Err(EvalError::NotCallable),
    }
}

} // verus!
