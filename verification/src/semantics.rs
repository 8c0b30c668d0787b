use vstd::prelude::*;
use crate::number::{number_equal, number_less, ArithOp};
use crate::object::{Object, Term};
use crate::scope::{bind, child, lookup, parent, Frames};

verus! {

/// Which form had the wrong number of operands.
#[derive(Debug, PartialEq, Eq, Clone, Copy)]
pub enum Miscount {
    /// A binary operator without exactly two operands.
    Operator,
    /// A `define` with an odd number of operands.
    OddDefinition,
    /// A `define` with no operands.
    EmptyDefinition,
    /// An `if` without exactly three operands.
    Conditional,
    /// A `lambda` without exactly a parameter list and a body.
    Lambda,
    /// A call whose arguments do not match the function's parameters.
    Call,
}

/// Which operand had the wrong kind of value.
#[derive(Debug, PartialEq, Eq, Clone, Copy)]
pub enum Misfit {
    /// The left operand of an operator is not a number.
    LeftOperand,
    /// The right operand of an operator is not a number.
    RightOperand,
    /// A key in a `define` is not a symbol.
    DefinitionKey,
    /// The condition of an `if` is not a boolean.
    Condition,
    /// The parameters of a `lambda` are not a list.
    ParameterList,
    /// A parameter of a `lambda` is not a symbol.
    ParameterName,
    /// The body of a `lambda` is not a list.
    LambdaBody,
}

/// Why an evaluation failed.
#[derive(Debug, PartialEq)]
pub enum EvalError {
    /// A symbol that no frame of the scope binds.
    UnboundSymbol(String),
    /// A symbol in call position that no frame of the scope binds.
    UnboundSymbolFunction(String),
    /// A symbol in call position that is bound to something other than a
    /// lambda.
    NotCallable,
    /// A form with the wrong number of operands.
    ArityError(Miscount),
    /// An operand of the wrong kind.
    TypeError(Misfit),
    /// Forms and calls nested deeper than the depth allowed.
    DepthExceeded,
}

/// The mathematical value of an [`EvalError`].
pub ghost enum Fault {
    UnboundSymbol(Seq<char>),
    UnboundSymbolFunction(Seq<char>),
    NotCallable,
    ArityError(Miscount),
    TypeError(Misfit),
    DepthExceeded,
}

impl View for EvalError {
    type V = Fault;

    open spec fn view(&self) -> Fault {
        match self {
            EvalError::UnboundSymbol(s) => Fault::UnboundSymbol(s@),
            EvalError::UnboundSymbolFunction(s) => Fault::UnboundSymbolFunction(s@),
            EvalError::NotCallable => Fault::NotCallable,
            EvalError::ArityError(m) => Fault::ArityError(*m),
            EvalError::TypeError(m) => Fault::TypeError(*m),
            EvalError::DepthExceeded => Fault::DepthExceeded,
        }
    }
}

/// What a result of the evaluator stands for.
pub open spec fn outcome(r: Result<Object, EvalError>) -> Result<Term, Fault> {
    match r {
        Ok(v) => Ok(v@),
        Err(e) => Err(e@),
    }
}

/// An arithmetic kernel: what each operator gives on two binary64 patterns.
pub type Kernel = spec_fn(ArithOp, u64, u64) -> u64;

/// The kernel that an executable arithmetic function computes.
pub open spec fn kernel_of<F: Fn(ArithOp, u64, u64) -> u64>(f: &F) -> Kernel {
    |op: ArithOp, a: u64, b: u64| choose|r: u64| call_ensures(f, (op, a, b), r)
}

/// An arithmetic function fit for the evaluator: it accepts every pair of
/// operands and its result depends on nothing but the operator and the
/// operands.
pub open spec fn kernel_ok<F: Fn(ArithOp, u64, u64) -> u64>(f: &F) -> bool {
    &&& forall|op: ArithOp, a: u64, b: u64| #[trigger] call_requires(f, (op, a, b))
    &&& forall|op: ArithOp, a: u64, b: u64, r: u64| #[trigger]
        call_ensures(f, (op, a, b), r) ==> r == kernel_of(f)(op, a, b)
}

/// Whether `name` is one of the eight binary operators.
pub open spec fn is_operator(name: Seq<char>) -> bool {
    name == "+"@ || name == "-"@ || name == "*"@ || name == "/"@ || name == "<"@ || name == ">"@
        || name == "="@ || name == "!="@
}

/// What an operator gives on two numbers.
pub open spec fn operator_result(name: Seq<char>, a: u64, b: u64, k: Kernel) -> Term {
    if name == "+"@ {
        Term::Number(k(ArithOp::Add, a, b))
    } else if name == "-"@ {
        Term::Number(k(ArithOp::Sub, a, b))
    } else if name == "*"@ {
        Term::Number(k(ArithOp::Mul, a, b))
    } else if name == "/"@ {
        Term::Number(k(ArithOp::Div, a, b))
    } else if name == "<"@ {
        Term::Boolean(number_less(a, b))
    } else if name == ">"@ {
        Term::Boolean(number_less(b, a))
    } else if name == "="@ {
        Term::Boolean(number_equal(a, b))
    } else {
        Term::Boolean(!number_equal(a, b))
    }
}

/// What an operator gives on two evaluated operands: both must be numbers,
/// and the left one is looked at first.
pub open spec fn operator_value(name: Seq<char>, left: Term, right: Term, k: Kernel) -> Result<
    Term,
    Fault,
> {
    match left {
        Term::Number(a) => match right {
            Term::Number(b) => Ok(operator_result(name, a, b, k)),
            _ => Err(Fault::TypeError(Misfit::RightOperand)),
        },
        _ => Err(Fault::TypeError(Misfit::LeftOperand)),
    }
}

/// A sequence of results without the void ones, in the same order.
pub open spec fn values_only(all: Seq<Term>) -> Seq<Term>
    decreases all.len(),
{
    if all.len() == 0 {
        Seq::empty()
    } else if all.last() is Void {
        values_only(all.drop_last())
    } else {
        values_only(all.drop_last()).push(all.last())
    }
}

/// The chain after the parameters from index `at` on are bound, in order, to
/// the values at the same indices.
pub open spec fn bind_all(frames: Frames, params: Seq<Seq<char>>, values: Seq<Term>, at: nat) -> Frames
    decreases params.len() - at,
{
    if at >= params.len() {
        frames
    } else {
        bind_all(bind(frames, params[at as int], values[at as int]), params, values, at + 1)
    }
}

/// Whether every element is a symbol.
pub open spec fn all_symbols(items: Seq<Term>) -> bool {
    forall|i: int| 0 <= i < items.len() ==> #[trigger] items[i] is Symbol
}

/// The names of a sequence of symbols.
pub open spec fn symbol_names(items: Seq<Term>) -> Seq<Seq<char>> {
    Seq::new(items.len(), |i: int| items[i]->Symbol_0)
}

/// What a symbol evaluates to: its binding, or a failure that names it.
pub open spec fn symbol_value(name: Seq<char>, s: Frames) -> Result<Term, Fault> {
    match lookup(s, name) {
        Some(v) => Ok(v),
        None => Err(Fault::UnboundSymbol(name)),
    }
}

/// What the operands of a `lambda` form give: a function value made of the
/// parameter names and the body's forms, both taken as they stand.
pub open spec fn lambda_value(list: Seq<Term>) -> Result<Term, Fault> {
    if list.len() != 2 {
        Err(Fault::ArityError(Miscount::Lambda))
    } else {
        match list[0] {
            Term::List(ps) => if !all_symbols(ps) {
                Err(Fault::TypeError(Misfit::ParameterName))
            } else {
                match list[1] {
                    Term::List(b) => Ok(Term::Lambda(symbol_names(ps), b)),
                    _ => Err(Fault::TypeError(Misfit::LambdaBody)),
                }
            },
            _ => Err(Fault::TypeError(Misfit::ParameterList)),
        }
    }
}

/// The scope chain and the result after `t` is evaluated in the chain `s`.
/// `fuel` bounds how deep forms and calls may nest.
pub open spec fn object_value(t: Term, s: Frames, fuel: nat, k: Kernel) -> (Frames, Result<Term, Fault>)
    decreases fuel, 0nat, 0nat,
{
    match t {
        Term::Void => (s, Ok(Term::Void)),
        Term::Lambda(_, _) => (s, Ok(Term::Void)),
        Term::Number(_) => (s, Ok(t)),
        Term::Boolean(_) => (s, Ok(t)),
        Term::Symbol(name) => (s, symbol_value(name, s)),
        Term::List(items) => if fuel == 0 {
            (s, Err(Fault::DepthExceeded))
        } else {
            list_value(items, s, (fuel - 1) as nat, k)
        },
    }
}

/// The items from index `at` on, evaluated left to right, each in the chain
/// that the one before left behind, and added to `done`. The first failure
/// ends it.
pub open spec fn each_value(items: Seq<Term>, at: nat, done: Seq<Term>, s: Frames, fuel: nat, k: Kernel) -> (
    Frames,
    Result<Seq<Term>, Fault>,
)
    decreases fuel, 1nat, items.len() - at,
{
    if at >= items.len() {
        (s, Ok(done))
    } else {
        let (s1, r) = object_value(items[at as int], s, fuel, k);
        match r {
            Err(e) => (s1, Err(e)),
            Ok(v) => each_value(items, at + 1, done.push(v), s1, fuel, k),
        }
    }
}

/// The key and value pairs of a `define` from index `at` on: each value is
/// evaluated, then its key must be a symbol and is bound to it in the
/// current frame, so that a later value sees the earlier bindings. The first
/// failure ends it.
pub open spec fn pairs_value(list: Seq<Term>, at: nat, s: Frames, fuel: nat, k: Kernel) -> (
    Frames,
    Option<Fault>,
)
    decreases fuel, 1nat, list.len() - at,
{
    if at + 1 >= list.len() {
        (s, None)
    } else {
        let (s1, r) = object_value(list[at as int + 1], s, fuel, k);
        match r {
            Err(e) => (s1, Some(e)),
            Ok(v) => match list[at as int] {
                Term::Symbol(key) => pairs_value(list, at + 2, bind(s1, key, v), fuel, k),
                _ => (s1, Some(Fault::TypeError(Misfit::DefinitionKey))),
            },
        }
    }
}

/// A binary operator applied to its operand expressions.
pub open spec fn op_value(name: Seq<char>, body: Seq<Term>, s: Frames, fuel: nat, k: Kernel) -> (
    Frames,
    Result<Term, Fault>,
)
    decreases fuel, 2nat, 0nat,
{
    if body.len() != 2 {
        (s, Err(Fault::ArityError(Miscount::Operator)))
    } else {
        let (s1, r) = each_value(body, 0, Seq::empty(), s, fuel, k);
        match r {
            Err(e) => (s1, Err(e)),
            Ok(vs) => (s1, operator_value(name, vs[0], vs[1], k)),
        }
    }
}

/// The operands of a `define`: the pairs are bound in order, and then the
/// last operand is evaluated once more for the result.
pub open spec fn definition_value(list: Seq<Term>, s: Frames, fuel: nat, k: Kernel) -> (
    Frames,
    Result<Term, Fault>,
)
    decreases fuel, 2nat, 0nat,
{
    if list.len() % 2 != 0 {
        (s, Err(Fault::ArityError(Miscount::OddDefinition)))
    } else if list.len() == 0 {
        (s, Err(Fault::ArityError(Miscount::EmptyDefinition)))
    } else {
        let (s1, r) = pairs_value(list, 0, s, fuel, k);
        match r {
            Some(e) => (s1, Err(e)),
            None => object_value(list.last(), s1, fuel, k),
        }
    }
}

/// The operands of an `if`: the condition, then only the branch it selects.
pub open spec fn if_value(list: Seq<Term>, s: Frames, fuel: nat, k: Kernel) -> (
    Frames,
    Result<Term, Fault>,
)
    decreases fuel, 2nat, 0nat,
{
    if list.len() != 3 {
        (s, Err(Fault::ArityError(Miscount::Conditional)))
    } else {
        let (s1, r) = object_value(list[0], s, fuel, k);
        match r {
            Err(e) => (s1, Err(e)),
            Ok(Term::Boolean(b)) => object_value(list[if b { 1int } else { 2int }], s1, fuel, k),
            Ok(_) => (s1, Err(Fault::TypeError(Misfit::Condition))),
        }
    }
}

/// A call of the function bound to `name`: the arguments are evaluated in
/// the caller's chain, the parameters are bound to them in a new frame
/// around which the caller's chain stands, the body is evaluated there as
/// one list, and the new frame is dropped.
pub open spec fn call_value(name: Seq<char>, args: Seq<Term>, s: Frames, fuel: nat, k: Kernel) -> (
    Frames,
    Result<Term, Fault>,
)
    decreases fuel, 2nat, 0nat,
{
    match lookup(s, name) {
        None => (s, Err(Fault::UnboundSymbolFunction(name))),
        Some(Term::Lambda(params, body)) => if params.len() != args.len() {
            (s, Err(Fault::ArityError(Miscount::Call)))
        } else {
            let (s1, r) = each_value(args, 0, Seq::empty(), s, fuel, k);
            match r {
                Err(e) => (s1, Err(e)),
                Ok(vs) => {
                    let (s2, r2) = object_value(
                        Term::List(body),
                        bind_all(child(s1), params, vs, 0),
                        fuel,
                        k,
                    );
                    (parent(s2), r2)
                },
            }
        },
        Some(_) => (s, Err(Fault::NotCallable)),
    }
}

/// A list: a special form or a call where its head is a symbol, else the
/// list of what its elements evaluate to, the void results left out.
pub open spec fn list_value(items: Seq<Term>, s: Frames, fuel: nat, k: Kernel) -> (
    Frames,
    Result<Term, Fault>,
)
    decreases fuel, 3nat, 0nat,
{
    if items.len() > 0 && items[0] is Symbol {
        let name = items[0]->Symbol_0;
        let rest = items.subrange(1, items.len() as int);
        if is_operator(name) {
            op_value(name, rest, s, fuel, k)
        } else if name == "define"@ {
            definition_value(rest, s, fuel, k)
        } else if name == "if"@ {
            if_value(rest, s, fuel, k)
        } else if name == "lambda"@ {
            (s, lambda_value(rest))
        } else {
            call_value(name, rest, s, fuel, k)
        }
    } else {
        let (s1, r) = each_value(items, 0, Seq::empty(), s, fuel, k);
        match r {
            Err(e) => (s1, Err(e)),
            Ok(vs) => (s1, Ok(Term::List(values_only(vs)))),
        }
    }
}

/// A number and a boolean evaluate to themselves, in every scope and at
/// every depth, and leave the scope as it was.
pub proof fn law_literals_evaluate_to_themselves(n: u64, b: bool, s: Frames, fuel: nat, k: Kernel)
    ensures
        object_value(Term::Number(n), s, fuel, k) == (s, Ok::<Term, Fault>(Term::Number(n))),
        object_value(Term::Boolean(b), s, fuel, k) == (s, Ok::<Term, Fault>(Term::Boolean(b))),
        object_value(Term::Void, s, fuel, k) == (s, Ok::<Term, Fault>(Term::Void)),
{
}

/// A function value that is evaluated rather than called gives nothing.
pub proof fn law_bare_lambda_is_void(
    params: Seq<Seq<char>>,
    body: Seq<Term>,
    s: Frames,
    fuel: nat,
    k: Kernel,
)
    ensures
        object_value(Term::Lambda(params, body), s, fuel, k) == (s, Ok::<Term, Fault>(Term::Void)),
{
}

/// A symbol that no frame binds fails with its own name, and a bound one
/// gives its binding; neither touches the scope.
pub proof fn law_symbol_lookup(name: Seq<char>, s: Frames, fuel: nat, k: Kernel)
    ensures
        lookup(s, name) is None ==> object_value(Term::Symbol(name), s, fuel, k) == (
            s,
            Err::<Term, Fault>(Fault::UnboundSymbol(name)),
        ),
        lookup(s, name) is Some ==> object_value(Term::Symbol(name), s, fuel, k) == (
            s,
            Ok::<Term, Fault>(lookup(s, name)->Some_0),
        ),
        lookup(Seq::<crate::scope::Frame>::empty().push(Map::empty()), name) is None,
{
    let root = Seq::<crate::scope::Frame>::empty().push(Map::empty());
    assert(root.drop_last().len() == 0);
    reveal_with_fuel(lookup, 3);
}

/// An `if` evaluates its condition and then the chosen branch alone: what
/// the other branch holds has no part in the result or in the scope.
pub proof fn law_if_takes_one_branch(
    cond: Term,
    taken: Term,
    other1: Term,
    other2: Term,
    s: Frames,
    fuel: nat,
    k: Kernel,
)
    ensures
        object_value(cond, s, fuel, k).1 == Ok::<Term, Fault>(Term::Boolean(true)) ==> if_value(
            seq![cond, taken, other1],
            s,
            fuel,
            k,
        ) == if_value(seq![cond, taken, other2], s, fuel, k),
        object_value(cond, s, fuel, k).1 == Ok::<Term, Fault>(Term::Boolean(false)) ==> if_value(
            seq![cond, other1, taken],
            s,
            fuel,
            k,
        ) == if_value(seq![cond, other2, taken], s, fuel, k),
{
}

/// A `define` of one name with a number binds the name in the current frame
/// and gives the number, and the name then resolves to it.
pub proof fn law_define_binds(name: Seq<char>, n: u64, s: Frames, fuel: nat, k: Kernel)
    requires
        s.len() > 0,
    ensures
        definition_value(seq![Term::Symbol(name), Term::Number(n)], s, fuel, k) == (
            bind(s, name, Term::Number(n)),
            Ok::<Term, Fault>(Term::Number(n)),
        ),
        lookup(bind(s, name, Term::Number(n)), name) == Some(Term::Number(n)),
{
    reveal_with_fuel(pairs_value, 3);
}

/// A call with more or fewer arguments than the function has parameters
/// fails before anything is evaluated.
pub proof fn law_call_checks_arity(
    name: Seq<char>,
    args: Seq<Term>,
    params: Seq<Seq<char>>,
    body: Seq<Term>,
    s: Frames,
    fuel: nat,
    k: Kernel,
)
    requires
        lookup(s, name) == Some(Term::Lambda(params, body)),
        params.len() != args.len(),
    ensures
        call_value(name, args, s, fuel, k) == (
            s,
            Err::<Term, Fault>(Fault::ArityError(Miscount::Call)),
        ),
{
}

} // verus!
