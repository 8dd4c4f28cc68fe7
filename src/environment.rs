//! The environment chain, kept as an arena of frames referenced by index.
//! A frame's enclosing link is the index of an older frame, so a closure that
//! holds a frame index keeps seeing that frame's bindings, later changes
//! included, after the block that made it has been left.
use crate::value::Value;
use std::collections::HashMap;
use vstd::prelude::*;

verus! {

/// Why a variable could not be read or written.
#[derive(Clone, Copy, PartialEq, Eq, Structural, Debug)]
pub enum EnvError {
    UnboundVariable,
}

/// One scope: its bindings (a later entry for a name overrides an earlier
/// one) and the index of its enclosing frame, none for the global frame.
pub struct Frame {
    pub bindings: Vec<(String, Value)>,
    pub enclosing: Option<usize>,
}

pub open spec fn bindings_map(s: Seq<(String, Value)>) -> Map<Seq<char>, Value>
    decreases s.len(),
{
    if s.len() == 0 {
        Map::empty()
    } else {
        bindings_map(s.drop_last()).insert(s.last().0@, s.last().1)
    }
}

pub struct Environment {
    pub frames: Vec<Frame>,
    pub current: usize,
    pub locals: HashMap<usize, usize>,
}

/// The frame reached from frame `i` by following `d` enclosing links.
pub open spec fn ancestor(frames: Seq<Frame>, i: int, d: nat) -> Option<int>
    decreases d,
{
    if d == 0 {
        Some(i)
    } else {
        match frames[i].enclosing {
            Some(j) => ancestor(frames, j as int, (d - 1) as nat),
            None => None,
        }
    }
}

/// The first binding of `name` along the chain that starts at frame `i`.
pub open spec fn chain_lookup(frames: Seq<Frame>, i: int, name: Seq<char>) -> Option<Value>
    decreases i,
{
    if i < 0 || i >= frames.len() {
        None
    } else if bindings_map(frames[i].bindings@).contains_key(name) {
        Some(bindings_map(frames[i].bindings@)[name])
    } else {
        match frames[i].enclosing {
            Some(j) => if j < i {
                chain_lookup(frames, j as int, name)
            } else {
                None
            },
            None => None,
        }
    }
}

proof fn lemma_last_binding(s: Seq<(String, Value)>, name: Seq<char>, j: int)
    requires
        -1 <= j < s.len(),
        forall|k: int| j < k < s.len() ==> (#[trigger] s[k]).0@ != name,
        j >= 0 ==> s[j].0@ == name,
    ensures
        j >= 0 ==> bindings_map(s).contains_key(name) && bindings_map(s)[name] == s[j].1,
        j < 0 ==> !bindings_map(s).contains_key(name),
    decreases s.len(),
{
    if s.len() > 0 && j < s.len() - 1 {
        let rest = s.drop_last();
        assert forall|k: int| j < k < rest.len() implies (#[trigger] rest[k]).0@ != name by {
            assert(rest[k] == s[k]);
        }
        lemma_last_binding(rest, name, j);
    }
}

proof fn lemma_replace_binding(s: Seq<(String, Value)>, j: int, e: (String, Value))
    requires
        0 <= j < s.len(),
        s[j].0@ == e.0@,
        forall|k: int| j < k < s.len() ==> (#[trigger] s[k]).0@ != e.0@,
    ensures
        bindings_map(s.update(j, e)) == bindings_map(s).insert(e.0@, e.1),
    decreases s.len(),
{
    let t = s.update(j, e);
    if j == s.len() - 1 {
        assert(t.drop_last() =~= s.drop_last());
        assert(bindings_map(t) =~= bindings_map(s).insert(e.0@, e.1));
    } else {
        let rest = s.drop_last();
        assert forall|k: int| j < k < rest.len() implies (#[trigger] rest[k]).0@ != e.0@ by {
            assert(rest[k] == s[k]);
        }
        lemma_replace_binding(rest, j, e);
        assert(t.drop_last() =~= rest.update(j, e));
        assert(bindings_map(t) =~= bindings_map(s).insert(e.0@, e.1));
    }
}

/// The index of the last entry for `name` in a frame.
fn find_binding(frame: &Frame, name: &String) -> (r: Option<usize>)
    ensures
        match r {
            Some(j) => j < frame.bindings@.len() && frame.bindings@[j as int].0@ == name@
                && forall|k: int| j < k < frame.bindings@.len() ==> (#[trigger] frame.bindings@[k]).0@ != name@,
            None => forall|k: int| 0 <= k < frame.bindings@.len() ==> (#[trigger] frame.bindings@[k]).0@ != name@,
        },
        r is Some <==> bindings_map(frame.bindings@).contains_key(name@),
        r is Some ==> bindings_map(frame.bindings@)[name@] == frame.bindings@[r->Some_0 as int].1,
{
    let mut i: usize = frame.bindings.len();
    while i > 0
        invariant
            i <= frame.bindings.len(),
            forall|k: int| i <= k < frame.bindings@.len() ==> (#[trigger] frame.bindings@[k]).0@ != name@,
        decreases i,
    {
        if frame.bindings[i - 1].0 == *name {
            proof {
                lemma_last_binding(frame.bindings@, name@, i - 1);
            }
            return Some(i - 1);
        }
        i -= 1;
    }
    proof {
        lemma_last_binding(frame.bindings@, name@, -1);
    }
    None
}

impl Environment {
    /// Every enclosing link points at an older frame, so each chain ends at
    /// the global frame, frame 0.
    pub open spec fn wf(&self) -> bool {
        &&& self.frames@.len() > 0
        &&& self.current < self.frames@.len()
        &&& forall|i: int|
            0 <= i < self.frames@.len() ==> match (#[trigger] self.frames@[i]).enclosing {
                Some(j) => j < i,
                None => true,
            }
    }

    pub open spec fn frame_map(&self, i: int) -> Map<Seq<char>, Value> {
        bindings_map(self.frames@[i].bindings@)
    }

    /// The frame `d` links out from the current one, where it binds `name`.
    pub open spec fn binding_frame(&self, d: nat, name: Seq<char>) -> Option<int> {
        match ancestor(self.frames@, self.current as int, d) {
            Some(k) => if self.frame_map(k).contains_key(name) {
                Some(k)
            } else {
                None
            },
            None => None,
        }
    }

    /// Frames other than `i` are as in `other`; frame `i` keeps its link.
    pub open spec fn same_but(&self, other: &Environment, i: int) -> bool {
        &&& self.frames@.len() == other.frames@.len()
        &&& self.current == other.current
        &&& self.locals@ == other.locals@
        &&& self.frames@[i].enclosing == other.frames@[i].enclosing
        &&& forall|k: int| 0 <= k < self.frames@.len() && k != i ==> #[trigger] self.frames@[k] == other.frames@[k]
    }

    /// A fresh environment: the global frame alone, empty.
    pub fn new(locals: HashMap<usize, usize>) -> (r: Self)
        ensures
            r.wf(),
            r.frames@.len() == 1,
            r.current == 0,
            r.frame_map(0) == Map::<Seq<char>, Value>::empty(),
            r.frames@[0].enclosing is None,
            r.locals@ == locals@,
    {
        let mut frames: Vec<Frame> = Vec::new();
        frames.push(Frame { bindings: Vec::new(), enclosing: None });
        Environment { frames, current: 0, locals }
    }

    /// Takes the distances that the resolver computed.
    pub fn resolve(&mut self, locals: HashMap<usize, usize>)
        ensures
            final(self).frames@ == old(self).frames@,
            final(self).current == old(self).current,
            final(self).locals@ == locals@,
    {
        self.locals = locals;
    }

    /// Binds `name` in the current frame, replacing an earlier binding there.
    pub fn define(&mut self, name: String, value: Value)
        requires
            old(self).wf(),
        ensures
            final(self).wf(),
            final(self).same_but(old(self), old(self).current as int),
            final(self).frame_map(old(self).current as int) == old(self).frame_map(
                old(self).current as int,
            ).insert(name@, value),
    {
        self.assign_in(self.current, name, value);
    }

    fn assign_in(&mut self, i: usize, name: String, value: Value)
        requires
            old(self).wf(),
            i < old(self).frames@.len(),
        ensures
            final(self).wf(),
            final(self).same_but(old(self), i as int),
            final(self).frame_map(i as int) == old(self).frame_map(i as int).insert(name@, value),
    {
        let ghost old_bindings = self.frames@[i as int].bindings@;
        let ghost entry = (name, value);
        match find_binding(&self.frames[i], &name) {
            Some(j) => {
                proof {
                    lemma_replace_binding(old_bindings, j as int, entry);
                }
                self.frames[i].bindings[j] = (name, value);
                proof {
                    assert(self.frames@[i as int].bindings@ =~= old_bindings.update(j as int, entry));
                }
            },
            None => {
                self.frames[i].bindings.push((name, value));
                proof {
                    assert(self.frames@[i as int].bindings@.drop_last() =~= old_bindings);
                }
            },
        }
    }

    /// Opens a new frame enclosed by the current one and makes it current;
    /// returns the frame that was current.
    pub fn enclose(&mut self) -> (previous: usize)
        requires
            old(self).wf(),
            old(self).frames@.len() < usize::MAX,
        ensures
            final(self).wf(),
            previous == old(self).current,
            final(self).frames@ == old(self).frames@.push(
                Frame { bindings: final(self).frames@.last().bindings, enclosing: Some(previous) },
            ),
            final(self).frame_map(old(self).frames@.len() as int) == Map::<Seq<char>, Value>::empty(),
            final(self).current == old(self).frames@.len(),
            final(self).locals@ == old(self).locals@,
    {
        let previous = self.current;
        self.frames.push(Frame { bindings: Vec::new(), enclosing: Some(previous) });
        self.current = self.frames.len() - 1;
        previous
    }

    /// Makes frame `i` current again, as on leaving a block.
    pub fn set_current(&mut self, i: usize)
        requires
            old(self).wf(),
            i < old(self).frames@.len(),
        ensures
            final(self).wf(),
            final(self).frames@ == old(self).frames@,
            final(self).locals@ == old(self).locals@,
            final(self).current == i,
    {
        self.current = i;
    }

    /// The frame `distance` links out from the current one.
    fn ancestor_of(&self, distance: usize) -> (r: Option<usize>)
        requires
            self.wf(),
        ensures
            r is Some <==> ancestor(self.frames@, self.current as int, distance as nat) is Some,
            r is Some ==> ancestor(self.frames@, self.current as int, distance as nat) == Some(
                r->Some_0 as int,
            ) && r->Some_0 < self.frames@.len(),
    {
        let mut i: usize = self.current;
        let mut d: usize = 0;
        while d < distance
            invariant
                self.wf(),
                d <= distance,
                i < self.frames@.len(),
                ancestor(self.frames@, self.current as int, distance as nat) == ancestor(
                    self.frames@,
                    i as int,
                    (distance - d) as nat,
                ),
            decreases distance - d,
        {
            match self.frames[i].enclosing {
                Some(j) => {
                    i = j;
                },
                None => {
                    return None;
                },
            }
            d += 1;
        }
        Some(i)
    }

    /// Reads `name` in the frame exactly `distance` links out.
    pub fn get_at(&self, distance: usize, name: &String) -> (r: Result<&Value, EnvError>)
        requires
            self.wf(),
        ensures
            match self.binding_frame(distance as nat, name@) {
                Some(k) => r is Ok && *r->Ok_0 == self.frame_map(k)[name@],
                None => r == Err::<&Value, EnvError>(EnvError::UnboundVariable),
            },
    {
        match self.ancestor_of(distance) {
            Some(k) => match find_binding(&self.frames[k], name) {
                Some(j) => {
                    Ok(&self.frames[k].bindings[j].1)
                },
                None => Err(EnvError::UnboundVariable),
            },
            None => Err(EnvError::UnboundVariable),
        }
    }

    /// Overwrites `name` in the frame exactly `distance` links out.
    pub fn assign_at(&mut self, distance: usize, name: String, value: Value) -> (r: Result<(), EnvError>)
        requires
            old(self).wf(),
        ensures
            final(self).wf(),
            match old(self).binding_frame(distance as nat, name@) {
                Some(k) => r is Ok
                    && final(self).same_but(old(self), k)
                    && final(self).frame_map(k) == old(self).frame_map(k).insert(name@, value),
                None => r == Err::<(), EnvError>(EnvError::UnboundVariable) && *final(self) == *old(self),
            },
    {
        match self.ancestor_of(distance) {
            Some(k) => {
                if find_binding(&self.frames[k], &name).is_some() {
                    self.assign_in(k, name, value);
                    Ok(())
                } else {
                    Err(EnvError::UnboundVariable)
                }
            },
            None => Err(EnvError::UnboundVariable),
        }
    }

    /// Reads `name` in the first frame along the chain that binds it.
    pub fn get(&self, name: &String) -> (r: Result<&Value, EnvError>)
        requires
            self.wf(),
        ensures
            match chain_lookup(self.frames@, self.current as int, name@) {
                Some(v) => r is Ok && *r->Ok_0 == v,
                None => r == Err::<&Value, EnvError>(EnvError::UnboundVariable),
            },
    {
        let mut i: usize = self.current;
        loop
            invariant
                self.wf(),
                i < self.frames@.len(),
                chain_lookup(self.frames@, self.current as int, name@) == chain_lookup(
                    self.frames@,
                    i as int,
                    name@,
                ),
            decreases i,
        {
            match find_binding(&self.frames[i], name) {
                Some(j) => {
                    return Ok(&self.frames[i].bindings[j].1);
                },
                None => {},
            }
            match self.frames[i].enclosing {
                Some(j) => {
                    i = j;
                },
                None => {
                    return Err(EnvError::UnboundVariable);
                },
            }
        }
    }

    /// Reads the variable that the reference `id` names: through the
    /// resolver's distance where it recorded one, else along the chain.
    pub fn lookup(&self, id: usize, name: &String) -> (r: Result<&Value, EnvError>)
        requires
            self.wf(),
        ensures
            self.locals@.contains_key(id) ==> match self.binding_frame(self.locals@[id] as nat, name@) {
                Some(k) => r is Ok && *r->Ok_0 == self.frame_map(k)[name@],
                None => r == Err::<&Value, EnvError>(EnvError::UnboundVariable),
            },
            !self.locals@.contains_key(id) ==> match chain_lookup(self.frames@, self.current as int, name@) {
                Some(v) => r is Ok && *r->Ok_0 == v,
                None => r == Err::<&Value, EnvError>(EnvError::UnboundVariable),
            },
    {
        match self.locals.get(&id) {
            Some(distance) => self.get_at(*distance, name),
            None => self.get(name),
        }
    }

    /// Writes the variable that the reference `id` names: through the
    /// resolver's distance where it recorded one, else in the global frame.
    pub fn assign(&mut self, id: usize, name: String, value: Value) -> (r: Result<(), EnvError>)
        requires
            old(self).wf(),
        ensures
            final(self).wf(),
            old(self).locals@.contains_key(id) ==> match old(self).binding_frame(
                old(self).locals@[id] as nat,
                name@,
            ) {
                Some(k) => r is Ok && final(self).same_but(old(self), k) && final(self).frame_map(k)
                    == old(self).frame_map(k).insert(name@, value),
                None => r == Err::<(), EnvError>(EnvError::UnboundVariable) && *final(self) == *old(self),
            },
            !old(self).locals@.contains_key(id) ==> if old(self).frame_map(0).contains_key(name@) {
                r is Ok && final(self).same_but(old(self), 0) && final(self).frame_map(0)
                    == old(self).frame_map(0).insert(name@, value)
            } else {
                r == Err::<(), EnvError>(EnvError::UnboundVariable) && *final(self) == *old(self)
            },
    {
        match self.locals.get(&id) {
            Some(distance) => {
                let d = *distance;
                self.assign_at(d, name, value)
            },
            None => {
                if self.assign_global(name, value) {
                    Ok(())
                } else {
                    Err(EnvError::UnboundVariable)
                }
            },
        }
    }

    /// Overwrites `name` in the global frame; false where it is not bound
    /// there.
    pub fn assign_global(&mut self, name: String, value: Value) -> (r: bool)
        requires
            old(self).wf(),
        ensures
            final(self).wf(),
            r == old(self).frame_map(0).contains_key(name@),
            r ==> final(self).same_but(old(self), 0) && final(self).frame_map(0) == old(self).frame_map(
                0,
            ).insert(name@, value),
            !r ==> *final(self) == *old(self),
    {
        if find_binding(&self.frames[0], &name).is_some() {
            self.assign_in(0, name, value);
            true
        } else {
            false
        }
    }
}

/// A closure's frame is untouched by later iterations: once a new frame has
/// been opened after it (as `enclose` does) and bindings have been made in
/// that new frame alone (as `define` does), the closure's frame binds what
/// it bound before.
pub proof fn law_new_frame_leaves_captured_frame(
    before: Environment,
    opened: Environment,
    after: Environment,
    captured: int,
)
    requires
        0 <= captured < before.frames@.len(),
        opened.frames@.len() > before.frames@.len(),
        opened.frames@.take(before.frames@.len() as int) == before.frames@,
        opened.current == before.frames@.len(),
        after.same_but(&opened, opened.current as int),
    ensures
        after.frame_map(captured) == before.frame_map(captured),
        after.frames@[captured].enclosing == before.frames@[captured].enclosing,
{
    assert(opened.frames@[captured] == opened.frames@.take(before.frames@.len() as int)[captured]);
}

/// Two calls of one closure reach the same captured frame one link out: a
/// value that the first call writes there (as `assign_at` does) is what the
/// second call reads there, provided the frames that existed in between are
/// kept (as `begin_call` keeps them).
pub proof fn law_calls_share_captured_frame(
    between: Environment,
    second: Environment,
    closure: usize,
    name: Seq<char>,
    value: Value,
)
    requires
        closure < between.frames@.len(),
        between.frame_map(closure as int).contains_key(name),
        between.frame_map(closure as int)[name] == value,
        second.frames@.len() >= between.frames@.len(),
        forall|j: int| 0 <= j < between.frames@.len() ==> #[trigger] second.frames@[j] == between.frames@[j],
        second.wf(),
        second.frames@[second.current as int].enclosing == Some(closure),
    ensures
        second.binding_frame(1, name) == Some(closure as int),
        second.frame_map(closure as int)[name] == value,
{
    assert(second.frames@[closure as int] == between.frames@[closure as int]);
    assert(ancestor(second.frames@, closure as int, 0) == Some(closure as int));
}

} // verus!
