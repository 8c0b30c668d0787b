use microlisp::eval::{
    apply_operator, eval_definition, eval_function_call, eval_if, eval_lambda, eval_list,
    eval_object, eval_op, eval_symbol, is_operator_name,
};
use microlisp::number::{equal, less, ArithOp};
use microlisp::object::{copy_names, copy_objects, text_eq, Object};
use microlisp::scope::Scope;
use microlisp::semantics::{EvalError, Miscount, Misfit};

const DEPTH: usize = 200;

fn arith(op: ArithOp, a: u64, b: u64) -> u64 {
    let x = f64::from_bits(a);
    let y = f64::from_bits(b);
    let r = match op {
        ArithOp::Add => x + y,
        ArithOp::Sub => x - y,
        ArithOp::Mul => x * y,
        ArithOp::Div => x / y,
    };
    r.to_bits()
}

fn num(x: f64) -> Object {
    Object::Float(x.to_bits())
}

fn sym(s: &str) -> Object {
    Object::Symbol(s.to_string())
}

fn list(items: Vec<Object>) -> Object {
    Object::List(items)
}

fn run(object: &Object, scope: &mut Scope) -> Result<Object, EvalError> {
    eval_object(object, scope, DEPTH, &arith)
}

fn binary(op: &str, a: f64, b: f64) -> Result<Object, EvalError> {
    let mut scope = Scope::new();
    run(&list(vec![sym(op), num(a), num(b)]), &mut scope)
}

fn define_double(scope: &mut Scope) {
    let lambda = list(vec![
        sym("lambda"),
        list(vec![sym("n")]),
        list(vec![sym("*"), sym("n"), num(2.0)]),
    ]);
    let form = list(vec![sym("define"), sym("double"), lambda]);
    let r = run(&form, scope);
    assert_eq!(
        r,
        Ok(Object::Lambda(vec!["n".to_string()], vec![sym("*"), sym("n"), num(2.0)]))
    );
}

#[test]
fn test_bin_op() {
    assert_eq!(1, 1);
    assert_eq!(binary("+", 1.0, 2.0), Ok(num(3.0)));
}

#[test]
fn literals_evaluate_to_themselves() {
    let mut scope = Scope::new();
    for x in [0.0, -0.0, 1.5, -7.25, f64::INFINITY, 1e300] {
        assert_eq!(run(&num(x), &mut scope), Ok(num(x)));
    }
    let nan = run(&num(f64::NAN), &mut scope).unwrap();
    assert_eq!(nan, Object::Float(f64::NAN.to_bits()));
    assert_eq!(run(&Object::Bool(true), &mut scope), Ok(Object::Bool(true)));
    assert_eq!(run(&Object::Bool(false), &mut scope), Ok(Object::Bool(false)));
    assert_eq!(run(&Object::Void, &mut scope), Ok(Object::Void));
    assert_eq!(eval_object(&num(4.0), &mut scope, 0, &arith), Ok(num(4.0)));
    assert_eq!(scope, Scope::new());
}

#[test]
fn child_scope_reads_through_and_writes_locally() {
    let mut parent = Scope::new();
    parent.set("x", num(1.0));
    parent.set("y", num(2.0));
    let mut child = Scope::extend(parent);
    assert_eq!(child.get("x"), Some(num(1.0)));
    assert_eq!(child.get("y"), Some(num(2.0)));
    assert_eq!(child.get("z"), None);
    child.set("x", num(10.0));
    child.set("z", num(3.0));
    assert_eq!(child.get("x"), Some(num(10.0)));
    assert_eq!(child.get("z"), Some(num(3.0)));
    child.leave();
    assert_eq!(child.get("x"), Some(num(1.0)));
    assert_eq!(child.get("y"), Some(num(2.0)));
    assert_eq!(child.get("z"), None);
}

#[test]
fn scope_set_overwrites_in_the_same_frame() {
    let mut scope = Scope::default();
    assert_eq!(scope.get("a"), None);
    scope.set("a", num(1.0));
    scope.set("b", Object::Bool(true));
    scope.set("a", num(2.0));
    assert_eq!(scope.get("a"), Some(num(2.0)));
    assert_eq!(scope.get("b"), Some(Object::Bool(true)));
    scope.enter();
    assert_eq!(scope.get("a"), Some(num(2.0)));
}

#[test]
fn operator_table() {
    assert_eq!(binary("+", 1.0, 2.0), Ok(num(3.0)));
    assert_eq!(binary("-", 7.0, 3.0), Ok(num(4.0)));
    assert_eq!(binary("*", 7.0, 3.0), Ok(num(21.0)));
    assert_eq!(binary("/", 7.0, 3.0), Ok(num(7.0 / 3.0)));
    assert_eq!(binary("<", 7.0, 3.0), Ok(Object::Bool(false)));
    assert_eq!(binary(">", 7.0, 3.0), Ok(Object::Bool(true)));
    assert_eq!(binary("=", 7.0, 3.0), Ok(Object::Bool(false)));
    assert_eq!(binary("!=", 7.0, 3.0), Ok(Object::Bool(true)));
    assert_eq!(binary("<", 3.0, 7.0), Ok(Object::Bool(true)));
    assert_eq!(binary("=", 3.0, 3.0), Ok(Object::Bool(true)));
    assert_eq!(binary("!=", 3.0, 3.0), Ok(Object::Bool(false)));
}

#[test]
fn comparisons_agree_with_ieee() {
    let samples = [
        0.0,
        -0.0,
        1.0,
        -1.0,
        0.1,
        0.3,
        0.1 + 0.2,
        -2.5,
        1e-320,
        -1e-320,
        f64::MIN_POSITIVE,
        f64::MAX,
        f64::MIN,
        f64::INFINITY,
        f64::NEG_INFINITY,
        f64::NAN,
        -f64::NAN,
        f64::EPSILON,
        7.0,
        3.0,
    ];
    for a in samples {
        for b in samples {
            assert_eq!(less(a.to_bits(), b.to_bits()), a < b, "{a} < {b}");
            assert_eq!(equal(a.to_bits(), b.to_bits()), a == b, "{a} == {b}");
            assert_eq!(binary("<", a, b), Ok(Object::Bool(a < b)));
            assert_eq!(binary(">", a, b), Ok(Object::Bool(a > b)));
            assert_eq!(binary("=", a, b), Ok(Object::Bool(a == b)));
            assert_eq!(binary("!=", a, b), Ok(Object::Bool(a != b)));
        }
    }
}

#[test]
fn operator_errors() {
    let mut scope = Scope::new();
    let one = list(vec![sym("+"), num(1.0)]);
    assert_eq!(run(&one, &mut scope), Err(EvalError::ArityError(Miscount::Operator)));
    let three = list(vec![sym("+"), num(1.0), num(2.0), num(3.0)]);
    assert_eq!(run(&three, &mut scope), Err(EvalError::ArityError(Miscount::Operator)));
    let left = list(vec![sym("+"), Object::Bool(true), num(2.0)]);
    assert_eq!(run(&left, &mut scope), Err(EvalError::TypeError(Misfit::LeftOperand)));
    let right = list(vec![sym("<"), num(2.0), Object::Bool(true)]);
    assert_eq!(run(&right, &mut scope), Err(EvalError::TypeError(Misfit::RightOperand)));
    let both = list(vec![sym("*"), Object::Void, Object::Bool(true)]);
    assert_eq!(run(&both, &mut scope), Err(EvalError::TypeError(Misfit::LeftOperand)));
    let unbound = list(vec![sym("-"), Object::Bool(true), sym("nope")]);
    assert_eq!(run(&unbound, &mut scope), Err(EvalError::UnboundSymbol("nope".to_string())));
}

#[test]
fn apply_operator_on_values() {
    assert_eq!(apply_operator("/", &num(1.0), &num(0.0), &arith), Ok(num(f64::INFINITY)));
    assert_eq!(apply_operator("-", &num(1.0), &num(0.5), &arith), Ok(num(0.5)));
    assert_eq!(
        apply_operator("=", &num(1.0), &sym("x"), &arith),
        Err(EvalError::TypeError(Misfit::RightOperand))
    );
    assert!(is_operator_name("!="));
    assert!(is_operator_name("+"));
    assert!(!is_operator_name("define"));
    assert!(!is_operator_name("!"));
    assert!(!is_operator_name(""));
}

#[test]
fn nested_operators() {
    let mut scope = Scope::new();
    let form = list(vec![
        sym("+"),
        list(vec![sym("-"), num(2.0), num(4.0)]),
        list(vec![sym("*"), num(7.0), num(5.0)]),
    ]);
    assert_eq!(run(&form, &mut scope), Ok(num(33.0)));
    let body = vec![num(10.0), list(vec![sym("/"), num(1.0), num(4.0)])];
    assert_eq!(eval_op("-", &body, &mut scope, DEPTH, &arith), Ok(num(9.75)));
}

#[test]
fn define_binds_and_returns_the_last_operand() {
    let mut scope = Scope::new();
    let form = list(vec![sym("define"), sym("x"), num(5.0), sym("x")]);
    assert_eq!(run(&form, &mut scope), Err(EvalError::ArityError(Miscount::OddDefinition)));
    assert_eq!(scope.get("x"), None);

    let form = list(vec![sym("define"), sym("x"), num(5.0)]);
    assert_eq!(run(&form, &mut scope), Ok(num(5.0)));
    assert_eq!(scope.get("x"), Some(num(5.0)));
    assert_eq!(run(&sym("x"), &mut scope), Ok(num(5.0)));
}

#[test]
fn define_is_sequential() {
    let mut scope = Scope::new();
    let form = list(vec![
        sym("define"),
        sym("a"),
        num(2.0),
        sym("b"),
        list(vec![sym("*"), sym("a"), num(3.0)]),
    ]);
    assert_eq!(run(&form, &mut scope), Ok(num(6.0)));
    assert_eq!(scope.get("a"), Some(num(2.0)));
    assert_eq!(scope.get("b"), Some(num(6.0)));
    let again = list(vec![sym("define"), sym("a"), list(vec![sym("+"), sym("a"), num(1.0)])]);
    assert_eq!(run(&again, &mut scope), Ok(num(4.0)));
    assert_eq!(scope.get("a"), Some(num(3.0)));
}

#[test]
fn define_errors() {
    let mut scope = Scope::new();
    assert_eq!(
        eval_definition(&[], &mut scope, DEPTH, &arith),
        Err(EvalError::ArityError(Miscount::EmptyDefinition))
    );
    assert_eq!(
        eval_definition(&[sym("x")], &mut scope, DEPTH, &arith),
        Err(EvalError::ArityError(Miscount::OddDefinition))
    );
    assert_eq!(
        eval_definition(&[num(1.0), num(2.0)], &mut scope, DEPTH, &arith),
        Err(EvalError::TypeError(Misfit::DefinitionKey))
    );
    assert_eq!(
        eval_definition(&[sym("x"), sym("x")], &mut scope, DEPTH, &arith),
        Err(EvalError::UnboundSymbol("x".to_string()))
    );
    assert_eq!(
        eval_definition(&[sym("ok"), num(1.0), num(3.0), sym("gone")], &mut scope, DEPTH, &arith),
        Err(EvalError::UnboundSymbol("gone".to_string()))
    );
    assert_eq!(scope.get("ok"), Some(num(1.0)));
    assert_eq!(scope.get("x"), None);
}

#[test]
fn if_takes_exactly_one_branch() {
    let mut scope = Scope::new();
    let yes = list(vec![sym("if"), Object::Bool(true), num(1.0), num(2.0)]);
    assert_eq!(run(&yes, &mut scope), Ok(num(1.0)));
    let no = list(vec![sym("if"), Object::Bool(false), num(1.0), num(2.0)]);
    assert_eq!(run(&no, &mut scope), Ok(num(2.0)));

    let def_a = list(vec![sym("define"), sym("a"), num(1.0)]);
    let def_b = list(vec![sym("define"), sym("b"), num(2.0)]);
    let form = list(vec![sym("if"), list(vec![sym("<"), num(1.0), num(2.0)]), def_a, def_b]);
    assert_eq!(run(&form, &mut scope), Ok(num(1.0)));
    assert_eq!(scope.get("a"), Some(num(1.0)));
    assert_eq!(scope.get("b"), None);
    assert_eq!(run(&sym("b"), &mut scope), Err(EvalError::UnboundSymbol("b".to_string())));
}

#[test]
fn if_errors() {
    let mut scope = Scope::new();
    assert_eq!(
        eval_if(&[Object::Bool(true), num(1.0)], &mut scope, DEPTH, &arith),
        Err(EvalError::ArityError(Miscount::Conditional))
    );
    assert_eq!(
        eval_if(&[num(0.0), num(1.0), num(2.0)], &mut scope, DEPTH, &arith),
        Err(EvalError::TypeError(Misfit::Condition))
    );
    assert_eq!(
        eval_if(&[sym("c"), num(1.0), num(2.0)], &mut scope, DEPTH, &arith),
        Err(EvalError::UnboundSymbol("c".to_string()))
    );
}

#[test]
fn lambda_form_builds_a_function_value() {
    let params = list(vec![sym("a"), sym("b")]);
    let body = list(vec![sym("+"), sym("a"), sym("b")]);
    assert_eq!(
        eval_lambda(&[params, body]),
        Ok(Object::Lambda(
            vec!["a".to_string(), "b".to_string()],
            vec![sym("+"), sym("a"), sym("b")]
        ))
    );
    assert_eq!(
        eval_lambda(&[list(vec![]), list(vec![])]),
        Ok(Object::Lambda(vec![], vec![]))
    );
}

#[test]
fn lambda_form_errors() {
    assert_eq!(eval_lambda(&[list(vec![])]), Err(EvalError::ArityError(Miscount::Lambda)));
    assert_eq!(
        eval_lambda(&[sym("a"), list(vec![])]),
        Err(EvalError::TypeError(Misfit::ParameterList))
    );
    assert_eq!(
        eval_lambda(&[list(vec![sym("a"), num(1.0)]), list(vec![])]),
        Err(EvalError::TypeError(Misfit::ParameterName))
    );
    assert_eq!(
        eval_lambda(&[list(vec![sym("a")]), sym("a")]),
        Err(EvalError::TypeError(Misfit::LambdaBody))
    );
    assert_eq!(
        eval_lambda(&[list(vec![num(1.0)]), sym("a")]),
        Err(EvalError::TypeError(Misfit::ParameterName))
    );
}

#[test]
fn bare_lambda_is_void() {
    let mut scope = Scope::new();
    let value = Object::Lambda(vec!["n".to_string()], vec![sym("n")]);
    assert_eq!(run(&value, &mut scope), Ok(Object::Void));
    scope.set("f", value);
    assert_eq!(
        run(&sym("f"), &mut scope),
        Ok(Object::Lambda(vec!["n".to_string()], vec![sym("n")]))
    );
}

#[test]
fn define_and_call_double() {
    let mut scope = Scope::new();
    define_double(&mut scope);
    assert_eq!(run(&list(vec![sym("double"), num(5.0)]), &mut scope), Ok(num(10.0)));
    let nested = list(vec![sym("double"), list(vec![sym("double"), num(1.5)])]);
    assert_eq!(run(&nested, &mut scope), Ok(num(6.0)));
    assert_eq!(scope.get("n"), None);
}

#[test]
fn call_with_wrong_argument_count() {
    let mut scope = Scope::new();
    define_double(&mut scope);
    assert_eq!(
        run(&list(vec![sym("double")]), &mut scope),
        Err(EvalError::ArityError(Miscount::Call))
    );
    assert_eq!(
        run(&list(vec![sym("double"), num(1.0), num(2.0)]), &mut scope),
        Err(EvalError::ArityError(Miscount::Call))
    );
}

#[test]
fn call_errors() {
    let mut scope = Scope::new();
    assert_eq!(
        run(&list(vec![sym("missing"), num(1.0)]), &mut scope),
        Err(EvalError::UnboundSymbolFunction("missing".to_string()))
    );
    scope.set("five", num(5.0));
    assert_eq!(run(&list(vec![sym("five"), num(1.0)]), &mut scope), Err(EvalError::NotCallable));
    define_double(&mut scope);
    assert_eq!(
        eval_function_call("double", &[sym("q")], &mut scope, DEPTH, &arith),
        Err(EvalError::UnboundSymbol("q".to_string()))
    );
    let bad_body = list(vec![sym("double"), Object::Bool(true)]);
    assert_eq!(run(&bad_body, &mut scope), Err(EvalError::TypeError(Misfit::LeftOperand)));
    assert_eq!(scope.get("n"), None);
    assert_eq!(scope.get("five"), Some(num(5.0)));
}

#[test]
fn a_definition_in_a_body_stays_in_the_call() {
    let mut scope = Scope::new();
    scope.set("outer", num(100.0));
    scope.set("f", Object::Lambda(vec!["n".to_string()], vec![
        list(vec![sym("define"), sym("inner"), list(vec![sym("+"), sym("outer"), sym("n")])]),
        sym("inner"),
    ]));
    let r = run(&list(vec![sym("f"), num(1.0)]), &mut scope);
    assert_eq!(r, Ok(list(vec![num(101.0), num(101.0)])));
    assert_eq!(scope.get("inner"), None);
    assert_eq!(scope.get("n"), None);
    assert_eq!(scope.get("outer"), Some(num(100.0)));
}

#[test]
fn a_call_sees_the_callers_bindings() {
    let mut scope = Scope::new();
    scope.set("show", Object::Lambda(vec![], vec![sym("+"), sym("hidden"), num(1.0)]));
    scope.set("wrap", Object::Lambda(vec!["hidden".to_string()], vec![sym("show")]));
    assert_eq!(
        run(&list(vec![sym("show")]), &mut scope),
        Err(EvalError::UnboundSymbol("hidden".to_string()))
    );
    assert_eq!(run(&list(vec![sym("wrap"), num(4.0)]), &mut scope), Ok(num(5.0)));
}

#[test]
fn arguments_are_evaluated_in_the_callers_scope() {
    let mut scope = Scope::new();
    define_double(&mut scope);
    let arg = list(vec![sym("define"), sym("seen"), num(3.0)]);
    assert_eq!(run(&list(vec![sym("double"), arg]), &mut scope), Ok(num(6.0)));
    assert_eq!(scope.get("seen"), Some(num(3.0)));
}

#[test]
fn unbound_symbol() {
    let mut scope = Scope::new();
    assert_eq!(run(&sym("zzz"), &mut scope), Err(EvalError::UnboundSymbol("zzz".to_string())));
    assert_eq!(eval_symbol("zzz", &scope), Err(EvalError::UnboundSymbol("zzz".to_string())));
    scope.set("zzz", Object::Bool(false));
    assert_eq!(eval_symbol("zzz", &scope), Ok(Object::Bool(false)));
}

#[test]
fn a_list_without_a_head_symbol_is_a_sequence() {
    let mut scope = Scope::new();
    let form = list(vec![
        num(1.0),
        Object::Void,
        list(vec![sym("+"), num(1.0), num(1.0)]),
        Object::Lambda(vec![], vec![]),
        Object::Bool(true),
    ]);
    assert_eq!(run(&form, &mut scope), Ok(list(vec![num(1.0), num(2.0), Object::Bool(true)])));
    assert_eq!(run(&list(vec![]), &mut scope), Ok(list(vec![])));
    assert_eq!(eval_list(&[num(1.0), sym("+")], &mut scope, DEPTH, &arith),
        Err(EvalError::UnboundSymbol("+".to_string())));
    let stops = list(vec![
        list(vec![sym("define"), sym("a"), num(1.0)]),
        sym("nope"),
        list(vec![sym("define"), sym("b"), num(2.0)]),
    ]);
    assert_eq!(run(&stops, &mut scope), Err(EvalError::UnboundSymbol("nope".to_string())));
    assert_eq!(scope.get("a"), Some(num(1.0)));
    assert_eq!(scope.get("b"), None);
}

#[test]
fn depth_is_bounded() {
    let mut scope = Scope::new();
    let form = list(vec![sym("+"), num(1.0), list(vec![sym("+"), num(1.0), num(1.0)])]);
    assert_eq!(eval_object(&form, &mut scope, 0, &arith), Err(EvalError::DepthExceeded));
    assert_eq!(eval_object(&form, &mut scope, 1, &arith), Err(EvalError::DepthExceeded));
    assert_eq!(eval_object(&form, &mut scope, 2, &arith), Ok(num(3.0)));
    let forever = Object::Lambda(vec![], vec![sym("loop")]);
    scope.set("loop", forever);
    assert_eq!(run(&list(vec![sym("loop")]), &mut scope), Err(EvalError::DepthExceeded));
    assert_eq!(scope.get("loop"), Some(Object::Lambda(vec![], vec![sym("loop")])));
    scope.enter();
    scope.leave();
    assert_eq!(run(&num(1.0), &mut scope), Ok(num(1.0)));
}

#[test]
fn copies_are_equal() {
    let value = list(vec![
        sym("lambda"),
        Object::Lambda(vec!["a".to_string()], vec![num(1.0), Object::Void]),
        Object::Bool(true),
    ]);
    assert_eq!(value.duplicate(), value);
    let items = vec![num(1.0), sym("s")];
    assert_eq!(copy_objects(&items), items);
    let texts = vec!["a".to_string(), "".to_string()];
    assert_eq!(copy_names(&texts), texts);
    assert!(text_eq("define", "define"));
    assert!(!text_eq("define", "defin"));
    assert!(!text_eq("define", "defina"));
    assert!(text_eq("", ""));
}

#[test]
fn more_depth_gives_the_same_result() {
    let form = list(vec![
        list(vec![sym("define"), sym("sq"), list(vec![
            sym("lambda"),
            list(vec![sym("v")]),
            list(vec![sym("*"), sym("v"), sym("v")]),
        ])]),
        list(vec![sym("sq"), list(vec![sym("+"), num(1.0), num(2.0)])]),
        list(vec![sym("if"), list(vec![sym(">"), num(1.0), num(2.0)]), sym("never"), num(0.5)]),
    ]);
    let mut first = Scope::new();
    let low = eval_object(&form, &mut first, 3, &arith);
    assert_eq!(
        low,
        Ok(list(vec![
            Object::Lambda(vec!["v".to_string()], vec![sym("*"), sym("v"), sym("v")]),
            num(9.0),
            num(0.5),
        ]))
    );
    for depth in [4, 5, 50, 1000] {
        let mut scope = Scope::new();
        assert_eq!(eval_object(&form, &mut scope, depth, &arith), low);
        assert_eq!(scope, first);
    }
    let mut scope = Scope::new();
    assert_eq!(eval_object(&form, &mut scope, 2, &arith), Err(EvalError::DepthExceeded));
}

#[test]
fn evaluation_leaves_enclosing_frames_alone() {
    let mut scope = Scope::new();
    scope.set("x", num(1.0));
    scope.enter();
    let form = list(vec![sym("define"), sym("x"), num(2.0), sym("y"), num(3.0)]);
    assert_eq!(run(&form, &mut scope), Ok(num(3.0)));
    assert_eq!(scope.get("x"), Some(num(2.0)));
    assert_eq!(scope.get("y"), Some(num(3.0)));
    scope.leave();
    assert_eq!(scope.get("x"), Some(num(1.0)));
    assert_eq!(scope.get("y"), None);
    scope.leave();
    assert_eq!(scope.get("x"), Some(num(1.0)));
}
