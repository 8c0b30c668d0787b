use vstd::prelude::*;
use crate::object::Term;
use crate::scope::{bind, child, lookup, Frames};
use crate::semantics::{
    bind_all, call_value, definition_value, each_value, if_value, is_operator, list_value,
    object_value, op_value, pairs_value, Kernel,
};

verus! {

/// Whether two chains have the same frames around their current frame.
pub open spec fn same_outside(before: Frames, after: Frames) -> bool {
    after.len() == before.len() && after.drop_last() == before.drop_last()
}

/// A binding in the current frame leaves the frames around it alone.
pub proof fn law_bind_is_local(s: Frames, key: Seq<char>, value: Term)
    requires
        s.len() > 0,
    ensures
        same_outside(s, bind(s, key, value)),
{
    assert(bind(s, key, value).drop_last() =~= s.drop_last());
}

proof fn lemma_bind_all(s: Frames, params: Seq<Seq<char>>, values: Seq<Term>, at: nat)
    requires
        s.len() > 0,
    ensures
        same_outside(s, bind_all(s, params, values, at)),
    decreases params.len() - at,
{
    if at < params.len() {
        law_bind_is_local(s, params[at as int], values[at as int]);
        lemma_bind_all(bind(s, params[at as int], values[at as int]), params, values, at + 1);
    }
}

/// Evaluation writes to the current frame only: whatever is evaluated, and
/// whether or not it fails, the chain keeps its length and every enclosing
/// frame stays as it was.
pub proof fn law_evaluation_is_local(t: Term, s: Frames, fuel: nat, k: Kernel)
    requires
        s.len() > 0,
    ensures
        same_outside(s, object_value(t, s, fuel, k).0),
    decreases fuel, 0nat, 0nat,
{
    match t {
        Term::List(items) => {
            if fuel > 0 {
                lemma_list(items, s, (fuel - 1) as nat, k);
            }
        },
        _ => {},
    }
}

/// A call leaves the caller's chain as the evaluation of the arguments left
/// it: nothing that the body binds is seen once the call is over.
pub proof fn law_call_binds_nothing_outside(
    name: Seq<char>,
    args: Seq<Term>,
    s: Frames,
    fuel: nat,
    k: Kernel,
)
    requires
        s.len() > 0,
        lookup(s, name) matches Some(Term::Lambda(params, _)) && params.len() == args.len(),
    ensures
        call_value(name, args, s, fuel, k).0 == each_value(args, 0, Seq::empty(), s, fuel, k).0,
{
    lemma_each(args, 0, Seq::empty(), s, fuel, k);
    let (s1, r) = each_value(args, 0, Seq::empty(), s, fuel, k);
    match lookup(s, name) {
        Some(Term::Lambda(params, body)) => {
            match r {
                Ok(vs) => {
                    let inner = bind_all(child(s1), params, vs, 0);
                    lemma_bind_all(child(s1), params, vs, 0);
                    law_evaluation_is_local(Term::List(body), inner, fuel, k);
                    assert(child(s1).drop_last() =~= s1);
                },
                Err(_) => {},
            }
        },
        _ => {},
    }
}

proof fn lemma_each(items: Seq<Term>, at: nat, done: Seq<Term>, s: Frames, fuel: nat, k: Kernel)
    requires
        s.len() > 0,
    ensures
        same_outside(s, each_value(items, at, done, s, fuel, k).0),
    decreases fuel, 1nat, items.len() - at,
{
    if at < items.len() {
        law_evaluation_is_local(items[at as int], s, fuel, k);
        let (s1, r) = object_value(items[at as int], s, fuel, k);
        match r {
            Ok(v) => {
                lemma_each(items, at + 1, done.push(v), s1, fuel, k);
            },
            Err(_) => {},
        }
    }
}

proof fn lemma_pairs(list: Seq<Term>, at: nat, s: Frames, fuel: nat, k: Kernel)
    requires
        s.len() > 0,
    ensures
        same_outside(s, pairs_value(list, at, s, fuel, k).0),
    decreases fuel, 1nat, list.len() - at,
{
    if at + 1 < list.len() {
        law_evaluation_is_local(list[at as int + 1], s, fuel, k);
        let (s1, r) = object_value(list[at as int + 1], s, fuel, k);
        match r {
            Ok(v) => {
                match list[at as int] {
                    Term::Symbol(key) => {
                        law_bind_is_local(s1, key, v);
                        lemma_pairs(list, at + 2, bind(s1, key, v), fuel, k);
                    },
                    _ => {},
                }
            },
            Err(_) => {},
        }
    }
}

proof fn lemma_op(name: Seq<char>, body: Seq<Term>, s: Frames, fuel: nat, k: Kernel)
    requires
        s.len() > 0,
    ensures
        same_outside(s, op_value(name, body, s, fuel, k).0),
    decreases fuel, 2nat, 0nat,
{
    if body.len() == 2 {
        lemma_each(body, 0, Seq::empty(), s, fuel, k);
    }
}

proof fn lemma_definition(list: Seq<Term>, s: Frames, fuel: nat, k: Kernel)
    requires
        s.len() > 0,
    ensures
        same_outside(s, definition_value(list, s, fuel, k).0),
    decreases fuel, 2nat, 0nat,
{
    if list.len() % 2 == 0 && list.len() != 0 {
        lemma_pairs(list, 0, s, fuel, k);
        let (s1, r) = pairs_value(list, 0, s, fuel, k);
        if r is None {
            law_evaluation_is_local(list.last(), s1, fuel, k);
        }
    }
}

proof fn lemma_if(list: Seq<Term>, s: Frames, fuel: nat, k: Kernel)
    requires
        s.len() > 0,
    ensures
        same_outside(s, if_value(list, s, fuel, k).0),
    decreases fuel, 2nat, 0nat,
{
    if list.len() == 3 {
        law_evaluation_is_local(list[0], s, fuel, k);
        let (s1, r) = object_value(list[0], s, fuel, k);
        match r {
            Ok(Term::Boolean(b)) => {
                law_evaluation_is_local(list[if b { 1int } else { 2int }], s1, fuel, k);
            },
            _ => {},
        }
    }
}

proof fn lemma_call(name: Seq<char>, args: Seq<Term>, s: Frames, fuel: nat, k: Kernel)
    requires
        s.len() > 0,
    ensures
        same_outside(s, call_value(name, args, s, fuel, k).0),
    decreases fuel, 2nat, 0nat,
{
    match lookup(s, name) {
        Some(Term::Lambda(params, body)) => {
            if params.len() == args.len() {
                lemma_each(args, 0, Seq::empty(), s, fuel, k);
                let (s1, r) = each_value(args, 0, Seq::empty(), s, fuel, k);
                match r {
                    Ok(vs) => {
                        let inner = bind_all(child(s1), params, vs, 0);
                        lemma_bind_all(child(s1), params, vs, 0);
                        law_evaluation_is_local(Term::List(body), inner, fuel, k);
                        assert(child(s1).drop_last() =~= s1);
                    },
                    Err(_) => {},
                }
            }
        },
        _ => {},
    }
}

proof fn lemma_list(items: Seq<Term>, s: Frames, fuel: nat, k: Kernel)
    requires
        s.len() > 0,
    ensures
        same_outside(s, list_value(items, s, fuel, k).0),
    decreases fuel, 3nat, 0nat,
{
    if items.len() > 0 && items[0] is Symbol {
        let name = items[0]->Symbol_0;
        let rest = items.subrange(1, items.len() as int);
        if is_operator(name) {
            lemma_op(name, rest, s, fuel, k);
        } else if name == "define"@ {
            lemma_definition(rest, s, fuel, k);
        } else if name == "if"@ {
            lemma_if(rest, s, fuel, k);
        } else if name == "lambda"@ {
        } else {
            lemma_call(name, rest, s, fuel, k);
        }
    } else {
        lemma_each(items, 0, Seq::empty(), s, fuel, k);
    }
}

} // verus!
