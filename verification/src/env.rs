//! The environment: the frames that bind the variables of a running
//! program.
//!
//! Frames are kept in one arena and named by their index in it, so that a
//! frame can be shared by every closure that captured it and can outlive
//! the scope that made it. Each frame but the root has a parent, which was
//! made before it. A frame stays in the arena for as long as the
//! environment lives.

use vstd::prelude::*;
use crate::value::{Value, ValueV};

verus! {

/// The model of a frame: its parent and its bindings.
pub ghost struct FrameV {
    pub parent: Option<usize>,
    pub vars: Map<Seq<char>, ValueV>,
}

/// Whether every parent was made before its child, which is what makes a
/// walk from a frame to the root end.
pub open spec fn frames_wf(frames: Seq<FrameV>) -> bool {
    forall|i: int|
        0 <= i < frames.len() ==> match (#[trigger] frames[i]).parent {
            Some(p) => p < i,
            None => true,
        }
}

/// The frame that binds `name` for code running in frame `at`: the first
/// one that does on the way from `at` to the root.
pub open spec fn holder(frames: Seq<FrameV>, at: int, name: Seq<char>) -> Option<int>
    decreases at,
{
    if 0 <= at < frames.len() {
        if frames[at].vars.contains_key(name) {
            Some(at)
        } else {
            match frames[at].parent {
                Some(p) => if p < at {
                    holder(frames, p as int, name)
                } else {
                    None
                },
                None => None,
            }
        }
    } else {
        None
    }
}

/// What a read of `name` in frame `at` gives: the binding in the nearest
/// frame that has one.
pub open spec fn lookup(frames: Seq<FrameV>, at: int, name: Seq<char>) -> Option<ValueV> {
    match holder(frames, at, name) {
        Some(f) => Some(frames[f].vars[name]),
        None => None,
    }
}

/// The frames after `name` is bound to `v` in frame `at` itself.
pub open spec fn define(frames: Seq<FrameV>, at: int, name: Seq<char>, v: ValueV) -> Seq<FrameV> {
    frames.update(at, FrameV { parent: frames[at].parent, vars: frames[at].vars.insert(name, v) })
}

/// The frames after an assignment to `name` in frame `at`: the nearest
/// frame that binds `name` has its binding replaced; where none does, the
/// name is bound in `at` itself.
pub open spec fn assign(frames: Seq<FrameV>, at: int, name: Seq<char>, v: ValueV) -> Seq<FrameV> {
    match holder(frames, at, name) {
        Some(f) => define(frames, f, name, v),
        None => define(frames, at, name, v),
    }
}

/// The frames after a new, empty frame is made under `parent`.
pub open spec fn extend(frames: Seq<FrameV>, parent: usize) -> Seq<FrameV> {
    frames.push(FrameV { parent: Some(parent), vars: Map::empty() })
}

/// The frame that binds a name lies on the way from `at` to the root, and
/// binds the name.
pub proof fn lemma_holder_bounds(frames: Seq<FrameV>, at: int, name: Seq<char>)
    ensures
        match holder(frames, at, name) {
            Some(f) => 0 <= f <= at && f < frames.len() && frames[f].vars.contains_key(name),
            None => true,
        },
    decreases at,
{
    if 0 <= at < frames.len() && !frames[at].vars.contains_key(name) {
        match frames[at].parent {
            Some(p) => {
                if p < at {
                    lemma_holder_bounds(frames, p as int, name);
                }
            },
            None => {},
        }
    }
}

/// An assignment makes no frame and removes none.
pub proof fn lemma_assign_len(frames: Seq<FrameV>, at: int, name: Seq<char>, v: ValueV)
    requires
        0 <= at < frames.len(),
    ensures
        assign(frames, at, name, v).len() == frames.len(),
{
    lemma_holder_bounds(frames, at, name);
}

/// One frame: its parent, and its bindings as names and values side by
/// side. No name occurs twice.
struct Frame {
    parent: Option<usize>,
    names: Vec<String>,
    values: Vec<Value>,
}

impl Frame {
    /// Whether the names and values pair up and no name occurs twice.
    spec fn wf(&self) -> bool {
        &&& self.names@.len() == self.values@.len()
        &&& forall|i: int, j: int|
            0 <= i < j < self.names@.len() ==> self.names@[i]@ != self.names@[j]@
    }

    /// Whether the binding at `i` is that of `name`.
    spec fn binds(&self, i: int, name: Seq<char>) -> bool {
        0 <= i < self.names@.len() && self.names@[i]@ == name
    }

    /// The model of the frame: a name is bound where it occurs among the
    /// names, to the value beside it.
    spec fn view(&self) -> FrameV {
        FrameV {
            parent: self.parent,
            vars: Map::new(
                |n: Seq<char>| exists|i: int| self.binds(i, n),
                |n: Seq<char>| self.values@[choose|i: int| self.binds(i, n)]@,
            ),
        }
    }

    /// A frame without bindings.
    fn new(parent: Option<usize>) -> (r: Frame)
        ensures
            r.wf(),
            r@ == (FrameV { parent, vars: Map::empty() }),
    {
        let r = Frame { parent, names: Vec::new(), values: Vec::new() };
        assert(r@.vars =~= Map::empty());
        r
    }

    /// The place of `name` among the bindings.
    fn find(&self, name: &String) -> (r: Option<usize>)
        requires
            self.wf(),
        ensures
            match r {
                Some(i) => self.binds(i as int, name@) && self@.vars.contains_key(name@)
                    && self@.vars[name@] == self.values@[i as int]@,
                None => !self@.vars.contains_key(name@) && forall|j: int| !self.binds(j, name@),
            },
    {
        let mut i: usize = 0;
        while i < self.names.len()
            invariant
                self.wf(),
                i <= self.names@.len(),
                forall|j: int| 0 <= j < i ==> !self.binds(j, name@),
            decreases self.names.len() - i,
        {
            if self.names[i] == *name {
                assert(self.binds(i as int, name@));
                let ghost c = choose|k: int| self.binds(k, name@);
                assert(c == i);
                return Some(i);
            }
            i += 1;
        }
        None
    }

    /// Binds `name` to `value`, in place of what it was bound to.
    fn set(&mut self, name: &String, value: Value)
        requires
            old(self).wf(),
        ensures
            final(self).wf(),
            final(self)@ == (FrameV {
                parent: old(self)@.parent,
                vars: old(self)@.vars.insert(name@, value@),
            }),
    {
        let ghost before = *self;
        match self.find(name) {
            Some(i) => {
                self.values[i] = value;
                assert forall|n: Seq<char>| #[trigger]
                    self@.vars.contains_key(n) == before@.vars.insert(
                        name@,
                        value@,
                    ).contains_key(n) by {
                    if before.binds(i as int, n) {
                        assert(self.binds(i as int, n));
                    }
                    if exists|k: int| before.binds(k, n) {
                        let k = choose|k: int| before.binds(k, n);
                        assert(self.binds(k, n));
                    }
                    if exists|k: int| self.binds(k, n) {
                        let k = choose|k: int| self.binds(k, n);
                        assert(before.binds(k, n));
                    }
                }
                assert forall|n: Seq<char>| #[trigger]
                    self@.vars.contains_key(n) implies self@.vars[n] == before@.vars.insert(
                    name@,
                    value@,
                )[n] by {
                    let k = choose|k: int| self.binds(k, n);
                    assert(before.binds(k, n));
                    let k0 = choose|k: int| before.binds(k, n);
                    assert(k0 == k);
                    if n == name@ {
                        assert(k == i);
                    }
                }
                assert(self@.vars =~= before@.vars.insert(name@, value@));
            },
            None => {
                let ghost len = self.names@.len() as int;
                self.names.push(name.clone());
                self.values.push(value);
                assert forall|a: int, b: int| 0 <= a < b < self.names@.len() implies self.names@[a]@
                    != self.names@[b]@ by {
                    if b == len {
                        assert(!before.binds(a, name@));
                    } else {
                        assert(before.names@[a]@ != before.names@[b]@);
                    }
                }
                assert forall|n: Seq<char>| #[trigger]
                    self@.vars.contains_key(n) == before@.vars.insert(
                        name@,
                        value@,
                    ).contains_key(n) by {
                    assert(self.binds(len, name@));
                    if exists|k: int| before.binds(k, n) {
                        let k = choose|k: int| before.binds(k, n);
                        assert(self.binds(k, n));
                    }
                    if exists|k: int| self.binds(k, n) {
                        let k = choose|k: int| self.binds(k, n);
                        if k < len {
                            assert(before.binds(k, n));
                        }
                    }
                }
                assert forall|n: Seq<char>| #[trigger]
                    self@.vars.contains_key(n) implies self@.vars[n] == before@.vars.insert(
                    name@,
                    value@,
                )[n] by {
                    let k = choose|k: int| self.binds(k, n);
                    if n == name@ {
                        assert(self.binds(len, n));
                        if k < len {
                            assert(before.binds(k, n));
                        }
                        assert(k == len);
                    } else {
                        assert(before.binds(k, n));
                        let k0 = choose|k: int| before.binds(k, n);
                        assert(self.binds(k0, n));
                        assert(k0 == k);
                    }
                }
                assert(self@.vars =~= before@.vars.insert(name@, value@));
            },
        }
    }
}

/// The arena of frames. The frame at index 0 is the root.
pub struct Env {
    frames: Vec<Frame>,
}

impl Env {
    pub closed spec fn view(&self) -> Seq<FrameV> {
        Seq::new(self.frames@.len(), |i: int| self.frames@[i]@)
    }

    /// Whether the arena has its root, every frame is sound, and every
    /// parent was made before its child.
    pub closed spec fn wf(&self) -> bool {
        &&& self.frames@.len() >= 1
        &&& forall|i: int| 0 <= i < self.frames@.len() ==> (#[trigger] self.frames@[i]).wf()
        &&& frames_wf(self@)
    }

    /// A sound environment has its root, and every parent in it was made
    /// before its child.
    pub proof fn lemma_wf_frames(&self)
        requires
            self.wf(),
        ensures
            self@.len() >= 1,
            frames_wf(self@),
    {
    }

    /// An environment that holds the root frame alone, without bindings.
    pub fn new() -> (r: Env)
        ensures
            r.wf(),
            r@ == seq![FrameV { parent: None, vars: Map::empty() }],
    {
        let mut frames: Vec<Frame> = Vec::new();
        frames.push(Frame::new(None));
        let r = Env { frames };
        assert(r@ =~= seq![FrameV { parent: None, vars: Map::empty() }]);
        r
    }

    /// The number of frames made so far.
    pub fn len(&self) -> (r: usize)
        ensures
            r == self@.len(),
    {
        self.frames.len()
    }

    /// Makes a new, empty frame under `parent` and returns its index.
    pub fn push(&mut self, parent: usize) -> (id: usize)
        requires
            old(self).wf(),
            parent < old(self)@.len(),
        ensures
            final(self).wf(),
            final(self)@ == extend(old(self)@, parent),
            id == old(self)@.len(),
    {
        let id = self.frames.len();
        self.frames.push(Frame::new(Some(parent)));
        assert(self@ =~= extend(old(self)@, parent));
        id
    }

    /// The frame that binds `name` for code running in frame `at`.
    fn find_holder(&self, at: usize, name: &String) -> (r: Option<usize>)
        requires
            self.wf(),
        ensures
            match r {
                Some(f) => holder(self@, at as int, name@) == Some(f as int) && f < self@.len()
                    && self@[f as int].vars.contains_key(name@),
                None => holder(self@, at as int, name@).is_none(),
            },
    {
        if at >= self.frames.len() {
            return None;
        }
        let mut cur: usize = at;
        loop
            invariant
                self.wf(),
                cur < self.frames@.len(),
                holder(self@, at as int, name@) == holder(self@, cur as int, name@),
            decreases cur,
        {
            let frame = &self.frames[cur];
            assert(frame.wf());
            assert(self@[cur as int] == frame@);
            if frame.find(name).is_some() {
                return Some(cur);
            }
            match frame.parent {
                Some(p) => {
                    assert(p < cur);
                    cur = p;
                },
                None => {
                    return None;
                },
            }
        }
    }

    /// Reads `name` in frame `at`: a copy of what the nearest frame on the
    /// way to the root binds it to, and nothing where none binds it.
    pub fn get(&self, at: usize, name: &String) -> (r: Option<Value>)
        requires
            self.wf(),
        ensures
            match r {
                Some(v) => lookup(self@, at as int, name@) == Some(v@),
                None => lookup(self@, at as int, name@).is_none(),
            },
    {
        match self.find_holder(at, name) {
            Some(f) => {
                let frame = &self.frames[f];
                assert(frame.wf());
                assert(self@[f as int] == frame@);
                match frame.find(name) {
                    Some(i) => Some(frame.values[i].dup()),
                    None => None,
                }
            },
            None => None,
        }
    }

    /// Binds `name` to `value` in frame `at` itself.
    pub fn define(&mut self, at: usize, name: &String, value: Value)
        requires
            old(self).wf(),
            at < old(self)@.len(),
        ensures
            final(self).wf(),
            final(self)@ == define(old(self)@, at as int, name@, value@),
    {
        let ghost before = *self;
        assert(self.frames@[at as int].wf());
        self.frames[at].set(name, value);
        assert(self@ =~= define(before@, at as int, name@, value@));
        assert forall|i: int| 0 <= i < self.frames@.len() implies (#[trigger] self.frames@[i]).wf() by {
            if i != at {
                assert(self.frames@[i] == before.frames@[i]);
            }
        }
        assert forall|i: int| 0 <= i < self@.len() implies match (#[trigger] self@[i]).parent {
            Some(p) => p < i,
            None => true,
        } by {
            assert(self@[i].parent == before@[i].parent);
        }
    }

    /// Assigns `value` to `name` for code running in frame `at`: the
    /// nearest frame that binds `name` has its binding replaced; where none
    /// does, the name is bound in `at` itself.
    pub fn assign(&mut self, at: usize, name: &String, value: Value)
        requires
            old(self).wf(),
            at < old(self)@.len(),
        ensures
            final(self).wf(),
            final(self)@ == assign(old(self)@, at as int, name@, value@),
    {
        match self.find_holder(at, name) {
            Some(f) => self.define(f, name, value),
            None => self.define(at, name, value),
        }
    }
}

} // verus!
