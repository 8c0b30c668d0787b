use vstd::prelude::*;
use crate::object::{Object, Term, text_eq};

verus! {

/// One frame of a scope chain: what each bound name stands for.
pub type Frame = Map<Seq<char>, Term>;

/// A chain of frames, the outermost first and the current one last.
pub type Frames = Seq<Frame>;

/// What `key` resolves to in the chain: the binding of the innermost frame
/// that has one.
pub open spec fn lookup(frames: Frames, key: Seq<char>) -> Option<Term>
    decreases frames.len(),
{
    if frames.len() == 0 {
        None
    } else if frames.last().contains_key(key) {
        Some(frames.last()[key])
    } else {
        lookup(frames.drop_last(), key)
    }
}

/// The chain after `key` is bound to `value` in the current frame.
pub open spec fn bind(frames: Frames, key: Seq<char>, value: Term) -> Frames {
    frames.update(frames.len() - 1, frames.last().insert(key, value))
}

/// The chain with a new, empty current frame.
pub open spec fn child(frames: Frames) -> Frames {
    frames.push(Map::empty())
}

/// The chain without its current frame.
pub open spec fn parent(frames: Frames) -> Frames {
    frames.drop_last()
}

/// The frame that a list of bindings stands for. Where a name stands twice,
/// its last binding counts.
pub open spec fn frame_map(entries: Seq<(String, Object)>) -> Frame
    decreases entries.len(),
{
    if entries.len() == 0 {
        Map::empty()
    } else {
        frame_map(entries.drop_last()).insert(entries.last().0@, entries.last().1@)
    }
}

/// The tree inside an optional object.
pub open spec fn option_tree(o: Option<Object>) -> Option<Term> {
    match o {
        Some(v) => Some(v@),
        None => None,
    }
}

/// A chain of lexical frames. Reads fall through to enclosing frames; writes
/// go to the current frame only.
#[derive(Debug, PartialEq)]
pub struct Scope {
    frames: Vec<Vec<(String, Object)>>,
}

impl View for Scope {
    type V = Frames;

    closed spec fn view(&self) -> Frames {
        Seq::new(self.frames@.len(), |i: int| frame_map(self.frames@[i]@))
    }
}

/// The index of the binding of `key` that counts among `entries`: the last
/// one, if there is any.
fn position(entries: &Vec<(String, Object)>, key: &str) -> (r: Option<usize>)
    ensures
        r is Some <==> frame_map(entries@).contains_key(key@),
        r matches Some(i) ==> {
            &&& i < entries@.len()
            &&& entries@[i as int].0@ == key@
            &&& entries@[i as int].1@ == frame_map(entries@)[key@]
            &&& forall|j: int| i < j < entries@.len() ==> (#[trigger] entries@[j]).0@ != key@
        },
{
    let mut i: usize = entries.len();
    proof {
        assert(entries@.take(i as int) =~= entries@);
    }
    while i > 0
        invariant
            i <= entries.len(),
            forall|j: int| i <= j < entries@.len() ==> (#[trigger] entries@[j]).0@ != key@,
            frame_map(entries@).contains_key(key@) == frame_map(
                entries@.take(i as int),
            ).contains_key(key@),
            frame_map(entries@).contains_key(key@) ==> frame_map(entries@)[key@] == frame_map(
                entries@.take(i as int),
            )[key@],
        decreases i,
    {
        proof {
            assert(entries@.take(i as int).drop_last() =~= entries@.take(i - 1));
        }
        if text_eq(entries[i - 1].0.as_str(), key) {
            return Some(i - 1);
        }
        i -= 1;
    }
    None
}

/// Replacing the binding of a name that counts is binding the name anew.
proof fn lemma_replace(entries: Seq<(String, Object)>, i: int, e: (String, Object))
    requires
        0 <= i < entries.len(),
        entries[i].0@ == e.0@,
        forall|j: int| i < j < entries.len() ==> (#[trigger] entries[j]).0@ != e.0@,
    ensures
        frame_map(entries.update(i, e)) == frame_map(entries).insert(e.0@, e.1@),
    decreases entries.len(),
{
    let changed = entries.update(i, e);
    if i == entries.len() - 1 {
        assert(changed.drop_last() =~= entries.drop_last());
        assert(frame_map(changed) =~= frame_map(entries).insert(e.0@, e.1@));
    } else {
        assert(changed.drop_last() =~= entries.drop_last().update(i, e));
        assert(entries.last().0@ != e.0@);
        lemma_replace(entries.drop_last(), i, e);
        assert(frame_map(changed) =~= frame_map(entries).insert(e.0@, e.1@));
    }
}

impl Scope {
    /// A root scope: one empty frame and nothing around it.
    pub fn new() -> (r: Scope)
        ensures
            r@ == seq![Map::<Seq<char>, Term>::empty()],
    {
        let mut frames: Vec<Vec<(String, Object)>> = Vec::new();
        frames.push(Vec::new());
        let r = Scope { frames };
        proof {
            assert(r@ =~= seq![Map::<Seq<char>, Term>::empty()]);
        }
        r
    }

    /// A new scope with an empty current frame around which `parent_scope`
    /// stands.
    pub fn extend(parent_scope: Scope) -> (r: Scope)
        ensures
            r@ == child(parent_scope@),
    {
        let mut r = parent_scope;
        r.enter();
        r
    }

    /// Opens a new, empty current frame.
    pub fn enter(&mut self)
        ensures
            final(self)@ == child(old(self)@),
    {
        self.frames.push(Vec::new());
        proof {
            assert(self@ =~= child(old(self)@));
        }
    }

    /// Drops the current frame, so that the enclosing one is current again.
    /// The outermost frame has nothing around it and stays.
    pub fn leave(&mut self)
        ensures
            final(self)@ == if old(self)@.len() > 1 {
                parent(old(self)@)
            } else {
                old(self)@
            },
    {
        if self.frames.len() > 1 {
            let _ = self.frames.pop();
            proof {
                assert(self@ =~= parent(old(self)@));
            }
        }
    }

    /// The value bound to `key` in the current frame or, failing that, in the
    /// nearest enclosing frame that binds it.
    pub fn get(&self, key: &str) -> (r: Option<Object>)
        ensures
            option_tree(r) == lookup(self@, key@),
    {
        let mut i: usize = self.frames.len();
        proof {
            assert(self@.take(i as int) =~= self@);
        }
        while i > 0
            invariant
                i <= self.frames.len(),
                self@.len() == self.frames.len(),
                lookup(self@, key@) == lookup(self@.take(i as int), key@),
            decreases i,
        {
            proof {
                assert(self@.take(i as int).drop_last() =~= self@.take(i - 1));
                assert(self@.take(i as int).last() == frame_map(self.frames@[i - 1]@));
            }
            let frame = &self.frames[i - 1];
            match position(frame, key) {
                Some(at) => {
                    return Some(frame[at].1.duplicate());
                },
                None => {},
            }
            i -= 1;
        }
        None
    }

    /// Binds `key` to `value` in the current frame, replacing an earlier
    /// binding of `key` there. Enclosing frames are left as they are.
    pub fn set(&mut self, key: &str, value: Object)
        requires
            old(self)@.len() > 0,
        ensures
            final(self)@ == bind(old(self)@, key@, value@),
    {
        let mut top = self.frames.pop().unwrap();
        let ghost before = top@;
        let entry = (key.to_owned(), value);
        match position(&top, key) {
            Some(at) => {
                proof {
                    lemma_replace(before, at as int, entry);
                }
                top.set(at, entry);
            },
            None => {
                top.push(entry);
                proof {
                    assert(top@.drop_last() =~= before);
                }
            },
        }
        self.frames.push(top);
        proof {
            assert(self@ =~= bind(old(self)@, key@, value@));
        }
    }
}

impl Default for Scope {
    fn default() -> (r: Scope)
        ensures
            r@ == seq![Map::<Seq<char>, Term>::empty()],
    {
        Scope::new()
    }
}

/// A binding made in a child scope is seen there, reads of any other name
/// fall through to the parent, and the parent itself is left as it was.
pub proof fn law_child_scope(s: Frames, key: Seq<char>, value: Term, other: Seq<char>)
    ensures
        parent(bind(child(s), key, value)) == s,
        lookup(child(s), other) == lookup(s, other),
        lookup(bind(child(s), key, value), key) == Some(value),
        other != key ==> lookup(bind(child(s), key, value), other) == lookup(s, other),
{
    let c = child(s);
    let b = bind(c, key, value);
    assert(c.drop_last() =~= s);
    assert(b.drop_last() =~= s);
    assert(parent(b) == s);
}

} // verus!
