use vstd::prelude::*;
use crate::object::Term;
use crate::scope::{bind, child, lookup, Frames};
use crate::semantics::{
    bind_all, call_value, definition_value, each_value, if_value, is_operator, list_value,
    object_value, op_value, pairs_value, Fault, Kernel,
};

verus! {

/// Whether an evaluation ran out of depth.
pub open spec fn out_of_depth(r: Result<Term, Fault>) -> bool {
    r == Err::<Term, Fault>(Fault::DepthExceeded)
}

/// The depth allowed decides nothing but whether an evaluation is given up:
/// one that does not run out of depth gives the same result and the same
/// scope at every greater depth.
pub proof fn law_depth_changes_nothing(t: Term, s: Frames, fuel: nat, more: nat, k: Kernel)
    requires
        fuel <= more,
        !out_of_depth(object_value(t, s, fuel, k).1),
    ensures
        object_value(t, s, more, k) == object_value(t, s, fuel, k),
    decreases fuel, 0nat, 0nat,
{
    match t {
        Term::List(items) => {
            lemma_list(items, s, (fuel - 1) as nat, (more - 1) as nat, k);
        },
        _ => {},
    }
}

proof fn lemma_each(
    items: Seq<Term>,
    at: nat,
    done: Seq<Term>,
    s: Frames,
    fuel: nat,
    more: nat,
    k: Kernel,
)
    requires
        fuel <= more,
        each_value(items, at, done, s, fuel, k).1 != Err::<Seq<Term>, Fault>(Fault::DepthExceeded),
    ensures
        each_value(items, at, done, s, more, k) == each_value(items, at, done, s, fuel, k),
    decreases fuel, 1nat, items.len() - at,
{
    if at < items.len() {
        law_depth_changes_nothing(items[at as int], s, fuel, more, k);
        let (s1, r) = object_value(items[at as int], s, fuel, k);
        match r {
            Ok(v) => {
                lemma_each(items, at + 1, done.push(v), s1, fuel, more, k);
            },
            Err(_) => {},
        }
    }
}

proof fn lemma_pairs(list: Seq<Term>, at: nat, s: Frames, fuel: nat, more: nat, k: Kernel)
    requires
        fuel <= more,
        pairs_value(list, at, s, fuel, k).1 != Some(Fault::DepthExceeded),
    ensures
        pairs_value(list, at, s, more, k) == pairs_value(list, at, s, fuel, k),
    decreases fuel, 1nat, list.len() - at,
{
    if at + 1 < list.len() {
        law_depth_changes_nothing(list[at as int + 1], s, fuel, more, k);
        let (s1, r) = object_value(list[at as int + 1], s, fuel, k);
        match r {
            Ok(v) => {
                match list[at as int] {
                    Term::Symbol(key) => {
                        lemma_pairs(list, at + 2, bind(s1, key, v), fuel, more, k);
                    },
                    _ => {},
                }
            },
            Err(_) => {},
        }
    }
}

proof fn lemma_op(name: Seq<char>, body: Seq<Term>, s: Frames, fuel: nat, more: nat, k: Kernel)
    requires
        fuel <= more,
        !out_of_depth(op_value(name, body, s, fuel, k).1),
    ensures
        op_value(name, body, s, more, k) == op_value(name, body, s, fuel, k),
    decreases fuel, 2nat, 0nat,
{
    if body.len() == 2 {
        lemma_each(body, 0, Seq::empty(), s, fuel, more, k);
    }
}

proof fn lemma_definition(list: Seq<Term>, s: Frames, fuel: nat, more: nat, k: Kernel)
    requires
        fuel <= more,
        !out_of_depth(definition_value(list, s, fuel, k).1),
    ensures
        definition_value(list, s, more, k) == definition_value(list, s, fuel, k),
    decreases fuel, 2nat, 0nat,
{
    if list.len() % 2 == 0 && list.len() != 0 {
        lemma_pairs(list, 0, s, fuel, more, k);
        let (s1, r) = pairs_value(list, 0, s, fuel, k);
        if r is None {
            law_depth_changes_nothing(list.last(), s1, fuel, more, k);
        }
    }
}

proof fn lemma_if(list: Seq<Term>, s: Frames, fuel: nat, more: nat, k: Kernel)
    requires
        fuel <= more,
        !out_of_depth(if_value(list, s, fuel, k).1),
    ensures
        if_value(list, s, more, k) == if_value(list, s, fuel, k),
    decreases fuel, 2nat, 0nat,
{
    if list.len() == 3 {
        law_depth_changes_nothing(list[0], s, fuel, more, k);
        let (s1, r) = object_value(list[0], s, fuel, k);
        match r {
            Ok(Term::Boolean(b)) => {
                law_depth_changes_nothing(list[if b { 1int } else { 2int }], s1, fuel, more, k);
            },
            _ => {},
        }
    }
}

proof fn lemma_call(name: Seq<char>, args: Seq<Term>, s: Frames, fuel: nat, more: nat, k: Kernel)
    requires
        fuel <= more,
        !out_of_depth(call_value(name, args, s, fuel, k).1),
    ensures
        call_value(name, args, s, more, k) == call_value(name, args, s, fuel, k),
    decreases fuel, 2nat, 0nat,
{
    match lookup(s, name) {
        Some(Term::Lambda(params, body)) => {
            if params.len() == args.len() {
                lemma_each(args, 0, Seq::empty(), s, fuel, more, k);
                let (s1, r) = each_value(args, 0, Seq::empty(), s, fuel, k);
                match r {
                    Ok(vs) => {
                        let inner = bind_all(child(s1), params, vs, 0);
                        law_depth_changes_nothing(Term::List(body), inner, fuel, more, k);
                    },
                    Err(_) => {},
                }
            }
        },
        _ => {},
    }
}

proof fn lemma_list(items: Seq<Term>, s: Frames, fuel: nat, more: nat, k: Kernel)
    requires
        fuel <= more,
        !out_of_depth(list_value(items, s, fuel, k).1),
    ensures
        list_value(items, s, more, k) == list_value(items, s, fuel, k),
    decreases fuel, 3nat, 0nat,
{
    if items.len() > 0 && items[0] is Symbol {
        let name = items[0]->Symbol_0;
        let rest = items.subrange(1, items.len() as int);
        if is_operator(name) {
            lemma_op(name, rest, s, fuel, more, k);
        } else if name == "define"@ {
            lemma_definition(rest, s, fuel, more, k);
        } else if name == "if"@ {
            lemma_if(rest, s, fuel, more, k);
        } else if name == "lambda"@ {
        } else {
            lemma_call(name, rest, s, fuel, more, k);
        }
    } else {
        lemma_each(items, 0, Seq::empty(), s, fuel, more, k);
    }
}

} // verus!
