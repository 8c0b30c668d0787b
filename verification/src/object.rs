use vstd::prelude::*;

verus! {

/// A value or an expression of the language: the parser builds these and the
/// evaluator both reads and returns them.
#[derive(Debug, PartialEq)]
pub enum Object {
    /// Absence of a value.
    Void,
    /// A number, held as the bit pattern of an IEEE 754 binary64 value.
    Float(u64),
    /// A boolean.
    Bool(bool),
    /// A symbol, by name.
    Symbol(String),
    /// A function value: parameter names and the forms of its body.
    Lambda(Vec<String>, Vec<Object>),
    /// A parenthesised form.
    List(Vec<Object>),
}

/// The mathematical tree that an [`Object`] stands for.
pub ghost enum Term {
    Void,
    Number(u64),
    Boolean(bool),
    Symbol(Seq<char>),
    Lambda(Seq<Seq<char>>, Seq<Term>),
    List(Seq<Term>),
}

impl Object {
    /// The tree that this object stands for.
    pub open spec fn tree(&self) -> Term
        decreases self,
    {
        match self {
            Object::Void => Term::Void,
            Object::Float(bits) => Term::Number(*bits),
            Object::Bool(b) => Term::Boolean(*b),
            Object::Symbol(s) => Term::Symbol(s@),
            Object::Lambda(p, b) => Term::Lambda(
                names(p@),
                Seq::new(
                    b@.len(),
                    |i: int|
                        if 0 <= i < b@.len() {
                            b@[i].tree()
                        } else {
                            Term::Void
                        },
                ),
            ),
            Object::List(l) => Term::List(
                Seq::new(
                    l@.len(),
                    |i: int|
                        if 0 <= i < l@.len() {
                            l@[i].tree()
                        } else {
                            Term::Void
                        },
                ),
            ),
        }
    }
}

impl View for Object {
    type V = Term;

    open spec fn view(&self) -> Term {
        self.tree()
    }
}

/// The texts of a sequence of strings.
pub open spec fn names(v: Seq<String>) -> Seq<Seq<char>> {
    Seq::new(v.len(), |i: int| v[i]@)
}

/// The trees of a sequence of objects.
pub open spec fn terms(v: Seq<Object>) -> Seq<Term> {
    Seq::new(v.len(), |i: int| v[i]@)
}

/// A list object stands for the list of its elements' trees.
pub proof fn lemma_list_view(l: Vec<Object>)
    ensures
        Object::List(l)@ == Term::List(terms(l@)),
{
    reveal_with_fuel(Object::tree, 2);
    assert(Object::List(l)@->List_0 =~= terms(l@));
}

/// A lambda object stands for its parameter names and its body's trees.
pub proof fn lemma_lambda_view(p: Vec<String>, b: Vec<Object>)
    ensures
        Object::Lambda(p, b)@ == Term::Lambda(names(p@), terms(b@)),
{
    reveal_with_fuel(Object::tree, 2);
    assert(Object::Lambda(p, b)@->Lambda_1 =~= terms(b@));
}

/// Whether two texts hold the same characters.
pub fn text_eq(a: &str, b: &str) -> (r: bool)
    ensures
        r == (a@ == b@),
{
    let n: usize = a.unicode_len();
    if n != b.unicode_len() {
        return false;
    }
    let mut i: usize = 0;
    while i < n
        invariant
            i <= n,
            n == a@.len(),
            n == b@.len(),
            forall|j: int| 0 <= j < i ==> a@[j] == b@[j],
        decreases n - i,
    {
        if a.get_char(i) != b.get_char(i) {
            return false;
        }
        i += 1;
    }
    proof {
        assert(a@ =~= b@);
    }
    true
}

/// A copy of a sequence of names.
pub fn copy_names(v: &Vec<String>) -> (r: Vec<String>)
    ensures
        names(r@) == names(v@),
{
    let mut out: Vec<String> = Vec::new();
    let mut i: usize = 0;
    while i < v.len()
        invariant
            i <= v.len(),
            out@.len() == i,
            forall|j: int| 0 <= j < i ==> out@[j]@ == v@[j]@,
        decreases v.len() - i,
    {
        out.push(v[i].clone());
        i += 1;
    }
    proof {
        assert(names(out@) =~= names(v@));
    }
    out
}

/// A copy of a sequence of objects.
pub fn copy_objects(v: &Vec<Object>) -> (r: Vec<Object>)
    ensures
        terms(r@) == terms(v@),
    decreases v,
{
    let mut out: Vec<Object> = Vec::new();
    let mut i: usize = 0;
    while i < v.len()
        invariant
            i <= v.len(),
            out@.len() == i,
            forall|j: int| 0 <= j < i ==> out@[j]@ == v@[j]@,
        decreases v.len() - i,
    {
        let item = v[i].duplicate();
        out.push(item);
        i += 1;
    }
    proof {
        assert(terms(out@) =~= terms(v@));
    }
    out
}

impl Object {
    /// A deep copy: a new object that stands for the same tree.
    pub fn duplicate(&self) -> (r: Object)
        ensures
            r@ == self@,
        decreases self,
    {
        match self {
            Object::Void => Object::Void,
            Object::Float(bits) => Object::Float(*bits),
            Object::Bool(b) => Object::Bool(*b),
            Object::Symbol(s) => Object::Symbol(s.clone()),
            Object::Lambda(p, b) => {
                let params = copy_names(p);
                let body = copy_objects(b);
                proof {
                    lemma_lambda_view(params, body);
                    lemma_lambda_view(*p, *b);
                }
                Object::Lambda(params, body)
            },
            Object::List(l) => {
                let items = copy_objects(l);
                proof {
                    lemma_list_view(items);
                    lemma_list_view(*l);
                }
                Object::List(items)
            },
        }
    }
}

} // verus!
