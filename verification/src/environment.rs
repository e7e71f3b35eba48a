//! The scope chain: nested, shared, mutable variable bindings.
//!
//! Scopes live in an arena: every scope frame ever pushed stays in
//! `frames`, and "popping" only moves `current` back to the saved parent.
//! A closure keeps the index of its defining frame, so that frame — and
//! through the parent links everything it can see — outlives the block
//! that created it, exactly the shared-ownership lifecycle the language
//! needs. `define` writes the innermost frame only (this is shadowing);
//! assignment walks the chain and mutates the frame that already binds
//! the name.
//!
//! The environment also owns the two output-sink buffers of the
//! interpreter: the text written by `print`, and the deterministic step
//! counter that the `clock` built-in reads.

use crate::lox_object::{CallV, ClockFunc, LoxCallable, PrintFunc, RuntimeError, ValueV, Values};
use vstd::prelude::*;

verus! {

/// A handle to one scope frame.
#[derive(Clone, Copy, Debug, PartialEq, Eq, Structural)]
pub struct Scope {
    pub index: usize,
}

/// One binding of the flat binding store.
struct Binding {
    frame: usize,
    name: Vec<u8>,
    value: Values,
}

/// The mathematical shadow of one scope frame: its parent link and its
/// bindings as a map.
pub struct FrameV {
    pub parent: Option<int>,
    pub vars: Map<Seq<u8>, ValueV>,
}

/// The shadow of the whole environment.
pub struct EnvV {
    pub frames: Seq<FrameV>,
    pub current: int,
    pub output: Seq<u8>,
    pub steps: nat,
}

/// Whether a value may live in an environment of `n` frames: a closure
/// may only capture a frame that exists.
pub open spec fn val_wf(v: ValueV, n: int) -> bool {
    match v {
        ValueV::Fn(CallV::Function(f)) => f.scope < n,
        _ => true,
    }
}

/// A well-shaped environment: the active frame exists, parent links only
/// point to older (longer-lived) frames, and every stored value is
/// well-shaped.
pub open spec fn env_wf(m: EnvV) -> bool {
    &&& 0 <= m.current < m.frames.len()
    &&& forall|i: int|
        0 <= i < m.frames.len() ==> match (#[trigger] m.frames[i]).parent {
            Some(p) => 0 <= p < i,
            None => true,
        }
    &&& forall|i: int, k: Seq<u8>|
        0 <= i < m.frames.len() && (#[trigger] m.frames[i].vars.dom().contains(k)) ==> val_wf(
            m.frames[i].vars[k],
            m.frames.len() as int,
        )
}

/// The value bound to `name`, walking from frame `idx` outward through
/// the parent links; `None` once the chain is exhausted.
pub open spec fn lookup_in(m: EnvV, idx: int, name: Seq<u8>) -> Option<ValueV>
    decreases idx when 0 <= idx
{
    if 0 <= idx < m.frames.len() {
        if m.frames[idx].vars.dom().contains(name) {
            Some(m.frames[idx].vars[name])
        } else {
            match m.frames[idx].parent {
                Some(p) => if 0 <= p < idx {
                    lookup_in(m, p, name)
                } else {
                    None
                },
                None => None,
            }
        }
    } else {
        None
    }
}

/// `m` with `name` bound to `v` in the innermost frame alone.
pub open spec fn env_define(m: EnvV, name: Seq<u8>, v: ValueV) -> EnvV {
    EnvV {
        frames: m.frames.update(
            m.current,
            FrameV { parent: m.frames[m.current].parent, vars: m.frames[m.current].vars.insert(name, v) },
        ),
        ..m
    }
}

/// `m` with the existing binding of `name` overwritten in the frame of
/// the chain from `idx` that holds it, or `None` when no frame does.
pub open spec fn env_assign(m: EnvV, idx: int, name: Seq<u8>, v: ValueV) -> Option<EnvV>
    decreases idx when 0 <= idx
{
    if 0 <= idx < m.frames.len() {
        if m.frames[idx].vars.dom().contains(name) {
            Some(
                EnvV {
                    frames: m.frames.update(
                        idx,
                        FrameV { parent: m.frames[idx].parent, vars: m.frames[idx].vars.insert(name, v) },
                    ),
                    ..m
                },
            )
        } else {
            match m.frames[idx].parent {
                Some(p) => if 0 <= p < idx {
                    env_assign(m, p, name, v)
                } else {
                    None
                },
                None => None,
            }
        }
    } else {
        None
    }
}

/// `m` with a fresh, empty frame pushed and made active.
pub open spec fn env_push(m: EnvV, parent: int) -> EnvV {
    EnvV {
        frames: m.frames.push(FrameV { parent: Some(parent), vars: Map::empty() }),
        current: m.frames.len() as int,
        ..m
    }
}

/// The byte text of the name `print`.
pub open spec fn print_name() -> Seq<u8> {
    seq![112u8, 114u8, 105u8, 110u8, 116u8]
}

/// The byte text of the name `clock`.
pub open spec fn clock_name() -> Seq<u8> {
    seq![99u8, 108u8, 111u8, 99u8, 107u8]
}

/// The state a fresh interpreter starts from: one root frame seeded with
/// the two built-ins, no output, no steps taken.
pub open spec fn global_env_v() -> EnvV {
    EnvV {
        frames: seq![
            FrameV {
                parent: None,
                vars: Map::empty().insert(print_name(), ValueV::Fn(CallV::Print)).insert(
                    clock_name(),
                    ValueV::Fn(CallV::Clock),
                ),
            },
        ],
        current: 0,
        output: Seq::empty(),
        steps: 0,
    }
}

/// One saturating step of the logical clock.
pub open spec fn spec_tick(steps: nat) -> nat {
    if steps == u64::MAX as nat {
        steps
    } else {
        steps + 1
    }
}

/// What the `clock` built-in yields after `steps` steps: the step count
/// as a number value, saturated.
pub open spec fn spec_clock_value(steps: nat) -> int {
    crate::number::clamp_i64(steps * (crate::number::SCALE as int))
}

/// The bindings of frame `f` among the flat binding store.
spec fn frame_map(b: Seq<Binding>, f: int) -> Map<Seq<u8>, ValueV>
    decreases b.len(),
{
    if b.len() == 0 {
        Map::empty()
    } else {
        let rest = frame_map(b.drop_last(), f);
        if b.last().frame == f {
            rest.insert(b.last().name@, b.last().value.view())
        } else {
            rest
        }
    }
}

/// No two entries bind the same name in the same frame.
spec fn distinct_bindings(b: Seq<Binding>) -> bool {
    forall|i: int, j: int|
        0 <= i < j < b.len() ==> !((#[trigger] b[i]).frame == (#[trigger] b[j]).frame && b[i].name@
            == b[j].name@)
}

/// Every binding names a frame that exists.
spec fn bindings_in_range(b: Seq<Binding>, n: int) -> bool {
    forall|i: int| 0 <= i < b.len() ==> (#[trigger] b[i]).frame < n
}

/// An entry matching (`f`, `name`) pins the map at `name`.
proof fn lemma_frame_map_found(b: Seq<Binding>, f: int, i: int)
    requires
        distinct_bindings(b),
        0 <= i < b.len(),
        b[i].frame == f,
    ensures
        frame_map(b, f).dom().contains(b[i].name@),
        frame_map(b, f)[b[i].name@] == b[i].value.view(),
    decreases b.len(),
{
    if i + 1 < b.len() {
        assert(b.drop_last()[i] == b[i]);
        lemma_frame_map_found(b.drop_last(), f, i);
        assert(!(b[i].frame == b[b.len() - 1].frame && b[i].name@ == b[b.len() - 1].name@));
    }
}

/// A name no entry of frame `f` carries is not in the map.
proof fn lemma_frame_map_missing(b: Seq<Binding>, f: int, name: Seq<u8>)
    requires
        forall|i: int| 0 <= i < b.len() ==> !((#[trigger] b[i]).frame == f && b[i].name@ == name),
    ensures
        !frame_map(b, f).dom().contains(name),
    decreases b.len(),
{
    if b.len() > 0 {
        assert(forall|i: int|
            0 <= i < b.drop_last().len() ==> !((#[trigger] b.drop_last()[i]).frame == f
                && b.drop_last()[i].name@ == name));
        lemma_frame_map_missing(b.drop_last(), f, name);
    }
}

/// Appending a binding inserts into its frame's map and leaves every
/// other frame's map unchanged.
proof fn lemma_frame_map_push(b: Seq<Binding>, nb: Binding, g: int)
    ensures
        nb.frame == g ==> frame_map(b.push(nb), g) == frame_map(b, g).insert(nb.name@, nb.value.view()),
        nb.frame != g ==> frame_map(b.push(nb), g) == frame_map(b, g),
{
    assert(b.push(nb).drop_last() =~= b);
    assert(b.push(nb).last() == nb);
}

/// Overwriting entry `i` with a binding of the same frame and name turns
/// into a map insert for that frame and leaves every other frame's map
/// unchanged.
proof fn lemma_frame_map_update(b: Seq<Binding>, i: int, nb: Binding, g: int)
    requires
        distinct_bindings(b),
        0 <= i < b.len(),
        b[i].frame == nb.frame,
        b[i].name@ == nb.name@,
    ensures
        nb.frame == g ==> frame_map(b.update(i, nb), g) == frame_map(b, g).insert(nb.name@, nb.value.view()),
        nb.frame != g ==> frame_map(b.update(i, nb), g) == frame_map(b, g),
    decreases b.len(),
{
    let bu = b.update(i, nb);
    if i == b.len() - 1 {
        assert(bu.drop_last() =~= b.drop_last());
        assert(bu.last() == nb);
        if nb.frame == g {
            if b.last().frame == g {
                assert(frame_map(bu, g) =~= frame_map(b, g).insert(nb.name@, nb.value.view()));
            }
        } else {
            if b.last().frame != g {
                assert(frame_map(bu, g) =~= frame_map(b, g));
            }
        }
    } else {
        assert(bu.drop_last() =~= b.drop_last().update(i, nb));
        assert(bu.last() == b.last());
        assert(distinct_bindings(b.drop_last())) by {
            assert(forall|p: int, q: int|
                0 <= p < q < b.drop_last().len() ==> b.drop_last()[p] == b[p] && b.drop_last()[q]
                    == b[q]);
        }
        assert(b.drop_last()[i] == b[i]);
        lemma_frame_map_update(b.drop_last(), i, nb, g);
        // The final entry cannot collide with the rewritten one.
        assert(!(b[i].frame == b[b.len() - 1].frame && b[i].name@ == b[b.len() - 1].name@));
        if nb.frame == g {
            if b.last().frame == g {
                assert(frame_map(bu, g) =~= frame_map(b, g).insert(nb.name@, nb.value.view()));
            } else {
                assert(frame_map(bu, g) =~= frame_map(b, g).insert(nb.name@, nb.value.view()));
            }
        } else {
            if b.last().frame == g {
                assert(frame_map(bu, g) =~= frame_map(b, g));
            } else {
                assert(frame_map(bu, g) =~= frame_map(b, g));
            }
        }
    }
}

/// The environment: the frame arena, the active frame, and the two
/// output channels.
pub struct Environment {
    parents: Vec<Option<usize>>,
    bindings: Vec<Binding>,
    current: usize,
    output: Vec<u8>,
    steps: u64,
}

impl Environment {
    /// The mathematical shadow of the environment.
    pub closed spec fn view(&self) -> EnvV {
        EnvV {
            frames: Seq::new(
                self.parents@.len(),
                |i: int| FrameV {
                    parent: match self.parents@[i] {
                        Some(p) => Some(p as int),
                        None => None,
                    },
                    vars: frame_map(self.bindings@, i),
                },
            ),
            current: self.current as int,
            output: self.output@,
            steps: self.steps as nat,
        }
    }

    /// The representation invariant the methods keep.
    pub closed spec fn wf(&self) -> bool {
        &&& env_wf(self.view())
        &&& distinct_bindings(self.bindings@)
        &&& bindings_in_range(self.bindings@, self.parents@.len() as int)
    }

    /// A well-shaped environment is well-shaped seen from outside.
    pub proof fn lemma_wf_view(&self)
        requires
            self.wf(),
        ensures
            env_wf(self.view()),
    {
    }

    /// How many frames the arena holds.
    pub fn frame_count(&self) -> (r: usize)
        ensures
            r as int == self.view().frames.len(),
    {
        self.parents.len()
    }

    /// The active frame.
    pub fn get_current(&self) -> (r: Scope)
        ensures
            r.index as int == self.view().current,
    {
        Scope { index: self.current }
    }

    /// The fresh interpreter environment: one root frame holding the two
    /// built-ins.
    pub fn global_env() -> (r: Self)
        ensures
            r.view() == global_env_v(),
            r.wf(),
    {
        let mut parents: Vec<Option<usize>> = Vec::new();
        parents.push(None);
        let mut bindings: Vec<Binding> = Vec::new();
        let ghost b0 = bindings@;
        let mut pn: Vec<u8> = Vec::new();
        pn.push(112);
        pn.push(114);
        pn.push(105);
        pn.push(110);
        pn.push(116);
        proof {
            assert(pn@ =~= print_name());
        }
        let nb1 = Binding { frame: 0, name: pn, value: Values::Fn(LoxCallable::Print(PrintFunc)) };
        proof {
            lemma_frame_map_push(b0, nb1, 0);
            assert(frame_map(b0, 0) =~= Map::<Seq<u8>, ValueV>::empty());
        }
        bindings.push(nb1);
        let ghost b1 = bindings@;
        let mut cn: Vec<u8> = Vec::new();
        cn.push(99);
        cn.push(108);
        cn.push(111);
        cn.push(99);
        cn.push(107);
        proof {
            assert(cn@ =~= clock_name());
        }
        let nb2 = Binding { frame: 0, name: cn, value: Values::Fn(LoxCallable::Clock(ClockFunc)) };
        proof {
            lemma_frame_map_push(b1, nb2, 0);
        }
        bindings.push(nb2);
        let r = Environment { parents, bindings, current: 0, output: Vec::new(), steps: 0 };
        proof {
            assert(r.view().frames[0].vars == global_env_v().frames[0].vars);
            assert(r.view().frames =~= global_env_v().frames);
            assert(r.view() == global_env_v());
            assert(distinct_bindings(r.bindings@)) by {
                assert(r.bindings@[0].name@ == print_name());
                assert(r.bindings@[1].name@ == clock_name());
                assert(print_name() != clock_name()) by {
                    assert(print_name()[0] != clock_name()[0]);
                }
            }
            assert(r.wf());
        }
        r
    }

    /// Pushes a fresh scope whose parent is the frame `parent`; the new
    /// scope becomes active. A block pushes onto the active scope; a
    /// function call pushes onto the function's captured scope.
    pub fn push_scope(&mut self, parent: usize) -> (r: Scope)
        requires
            old(self).wf(),
            (parent as int) < old(self).view().frames.len(),
        ensures
            final(self).wf(),
            final(self).view() == env_push(old(self).view(), parent as int),
            r.index as int == final(self).view().current,
    {
        let idx = self.parents.len();
        self.parents.push(Some(parent));
        self.current = idx;
        proof {
            let m0 = old(self).view();
            let m1 = self.view();
            assert forall|i: int| 0 <= i < m1.frames.len() implies m1.frames[i]
                == env_push(m0, parent as int).frames[i] by {
                if i < m0.frames.len() {
                    assert(frame_map(self.bindings@, i) == frame_map(old(self).bindings@, i));
                } else {
                    lemma_frame_map_missing(self.bindings@, i, Seq::empty());
                    assert(frame_map(self.bindings@, i) =~= Map::<Seq<u8>, ValueV>::empty()) by {
                        assert forall|k: Seq<u8>| !frame_map(self.bindings@, i).dom().contains(k) by {
                            lemma_frame_map_missing(self.bindings@, i, k);
                        }
                    }
                }
            }
            assert(m1.frames =~= env_push(m0, parent as int).frames);
            assert(m1 == env_push(m0, parent as int));
        }
        Scope { index: idx }
    }

    /// Pushes a child of the active scope: what entering a block does.
    pub fn create_sub_values(&mut self)
        requires
            old(self).wf(),
        ensures
            final(self).wf(),
            final(self).view() == env_push(old(self).view(), old(self).view().current),
    {
        let c = self.current;
        self.push_scope(c);
    }

    /// Leaves the active scope, restoring its parent: what leaving a
    /// block does. The frame itself stays alive in the arena, so any
    /// closure that captured it still sees it.
    pub fn delete_sub_values(&mut self)
        requires
            old(self).wf(),
            old(self).view().frames[old(self).view().current].parent is Some,
        ensures
            final(self).wf(),
            final(self).view() == (EnvV {
                current: old(self).view().frames[old(self).view().current].parent->0,
                ..old(self).view()
            }),
    {
        let p = self.parents[self.current];
        match p {
            Some(q) => {
                self.current = q;
            },
            None => {
                proof {
                    assert(false);
                }
            },
        }
    }

    /// Makes `scope` the active frame again: what returning from a call
    /// does with the caller's saved scope.
    pub fn restore_scope(&mut self, scope: Scope)
        requires
            old(self).wf(),
            (scope.index as int) < old(self).view().frames.len(),
        ensures
            final(self).wf(),
            final(self).view() == (EnvV { current: scope.index as int, ..old(self).view() }),
    {
        self.current = scope.index;
    }

    /// Binds `name` to `value` in the active scope alone, overwriting a
    /// binding of the same name there and hiding, without touching, any
    /// binding of outer scopes: this is how shadowing works.
    pub fn define(&mut self, name: Vec<u8>, value: Values)
        requires
            old(self).wf(),
            val_wf(value.view(), old(self).view().frames.len() as int),
        ensures
            final(self).wf(),
            final(self).view() == env_define(old(self).view(), name@, value.view()),
    {
        let ghost m0 = old(self).view();
        let f = self.current;
        let found = find_binding(&self.bindings, f, &name);
        match found {
            Some(i) => {
                proof {
                    lemma_frame_map_update(
                        self.bindings@,
                        i as int,
                        Binding { frame: f, name: name, value: value },
                        0,
                    );
                }
                let ghost bold = self.bindings@;
                let nb = Binding { frame: f, name, value };
                proof {
                    assert forall|g: int| true implies frame_map(bold.update(i as int, nb), g)
                        == (if g == f as int {
                        frame_map(bold, g).insert(nb.name@, nb.value.view())
                    } else {
                        frame_map(bold, g)
                    }) by {
                        lemma_frame_map_update(bold, i as int, nb, g);
                    }
                }
                self.bindings.set(i, nb);
                proof {
                    assert(self.view().frames =~= env_define(m0, nb.name@, nb.value.view()).frames);
                    assert(self.view() == env_define(m0, nb.name@, nb.value.view()));
                    assert(distinct_bindings(self.bindings@));
                    assert(self.wf());
                }
            },
            None => {
                let ghost bold = self.bindings@;
                let nb = Binding { frame: f, name, value };
                proof {
                    assert forall|g: int| true implies frame_map(bold.push(nb), g) == (if g
                        == f as int {
                        frame_map(bold, g).insert(nb.name@, nb.value.view())
                    } else {
                        frame_map(bold, g)
                    }) by {
                        lemma_frame_map_push(bold, nb, g);
                    }
                }
                self.bindings.push(nb);
                proof {
                    assert(self.view().frames =~= env_define(m0, nb.name@, nb.value.view()).frames);
                    assert(self.view() == env_define(m0, nb.name@, nb.value.view()));
                    assert(distinct_bindings(self.bindings@));
                    assert(self.wf());
                }
            },
        }
    }

    /// Overwrites the binding of `name` in the nearest scope of the
    /// chain that holds one; fails with `UndefinedVariable`, changing
    /// nothing, when no scope in the chain binds the name.
    pub fn redefine(&mut self, name: &Vec<u8>, value: Values) -> (r: Result<(), RuntimeError>)
        requires
            old(self).wf(),
            val_wf(value.view(), old(self).view().frames.len() as int),
        ensures
            final(self).wf(),
            match env_assign(old(self).view(), old(self).view().current, name@, value.view()) {
                Some(m) => r == Ok::<(), RuntimeError>(()) && final(self).view() == m,
                None => r == Err::<(), RuntimeError>(RuntimeError::UndefinedVariable)
                    && final(self).view() == old(self).view(),
            },
    {
        let ghost m0 = old(self).view();
        let mut cur: usize = self.current;
        loop
            invariant
                self == old(self),
                m0 == old(self).view(),
                self.wf(),
                val_wf(value.view(), m0.frames.len() as int),
                (cur as int) < self.view().frames.len(),
                env_assign(m0, m0.current, name@, value.view()) == env_assign(
                    m0,
                    cur as int,
                    name@,
                    value.view(),
                ),
            decreases cur,
        {
            let found = find_binding(&self.bindings, cur, name);
            match found {
                Some(i) => {
                    proof {
                        lemma_frame_map_found(self.bindings@, cur as int, i as int);
                        assert(m0 == self.view());
                        assert(m0.frames[cur as int].vars.dom().contains(name@));
                    }
                    let ghost bold = self.bindings@;
                    let nb = Binding { frame: cur, name: crate::lox_object::clone_bytes(name), value };
                    proof {
                        assert forall|g: int| true implies frame_map(bold.update(i as int, nb), g)
                            == (if g == cur as int {
                            frame_map(bold, g).insert(nb.name@, nb.value.view())
                        } else {
                            frame_map(bold, g)
                        }) by {
                            lemma_frame_map_update(bold, i as int, nb, g);
                        }
                    }
                    self.bindings.set(i, nb);
                    proof {
                        let m = env_assign(m0, cur as int, name@, value.view())->0;
                        assert(self.view().frames =~= m.frames);
                        assert(self.view() == m);
                        assert(distinct_bindings(self.bindings@)) by {
                            assert(forall|p: int|
                                0 <= p < self.bindings@.len() && p != i as int
                                    ==> #[trigger] self.bindings@[p] == bold[p]);
                            assert(self.bindings@[i as int].frame == bold[i as int].frame);
                            assert(self.bindings@[i as int].name@ == bold[i as int].name@);
                        }
                        assert(bindings_in_range(self.bindings@, self.parents@.len() as int)) by {
                            assert(forall|p: int|
                                0 <= p < self.bindings@.len() && p != i as int
                                    ==> #[trigger] self.bindings@[p] == bold[p]);
                        }
                        let mv = self.view();
                        assert(env_wf(mv)) by {
                            assert forall|ii: int|
                                0 <= ii < mv.frames.len() implies match (#[trigger] mv.frames[ii]).parent {
                                Some(p) => 0 <= p < ii,
                                None => true,
                            } by {
                                assert(mv.frames[ii].parent == m0.frames[ii].parent);
                            }
                            assert forall|ii: int, k: Seq<u8>|
                                0 <= ii < mv.frames.len() && (#[trigger] mv.frames[ii].vars.dom().contains(
                                    k,
                                )) implies val_wf(mv.frames[ii].vars[k], mv.frames.len() as int) by {
                                if ii == cur as int {
                                    if k != name@ {
                                        assert(m0.frames[ii].vars.dom().contains(k));
                                        assert(mv.frames[ii].vars[k] == m0.frames[ii].vars[k]);
                                    }
                                } else {
                                    assert(mv.frames[ii] == m0.frames[ii]);
                                }
                            }
                        }
                        assert(self.wf());
                    }
                    return Ok(());
                },
                None => {
                    proof {
                        lemma_frame_map_missing(self.bindings@, cur as int, name@);
                        assert(m0 == self.view());
                        assert(!m0.frames[cur as int].vars.dom().contains(name@));
                    }
                    let p = self.parents[cur];
                    match p {
                        Some(q) => {
                            proof {
                                assert(m0.frames[cur as int].parent == Some(q as int));
                                assert((q as int) < (cur as int));
                                assert(env_assign(m0, cur as int, name@, value.view())
                                    == env_assign(m0, q as int, name@, value.view()));
                            }
                            cur = q;
                        },
                        None => {
                            proof {
                                assert(m0.frames[cur as int].parent is None);
                                assert(env_assign(m0, cur as int, name@, value.view()) is None);
                            }
                            return Err(RuntimeError::UndefinedVariable);
                        },
                    }
                },
            }
        }
    }

    /// The value of `name`, found by walking from the active scope
    /// outward; `None` when the chain is exhausted.
    pub fn get(&self, name: &Vec<u8>) -> (r: Option<Values>)
        requires
            self.wf(),
        ensures
            match lookup_in(self.view(), self.view().current, name@) {
                Some(v) => r matches Some(x) && x.view() == v,
                None => r is None,
            },
    {
        let mut cur: usize = self.current;
        loop
            invariant
                self.wf(),
                (cur as int) < self.view().frames.len(),
                lookup_in(self.view(), self.view().current, name@) == lookup_in(
                    self.view(),
                    cur as int,
                    name@,
                ),
            decreases cur,
        {
            let found = find_binding(&self.bindings, cur, name);
            match found {
                Some(i) => {
                    proof {
                        lemma_frame_map_found(self.bindings@, cur as int, i as int);
                    }
                    return Some(self.bindings[i].value.dup());
                },
                None => {
                    proof {
                        lemma_frame_map_missing(self.bindings@, cur as int, name@);
                    }
                    let p = self.parents[cur];
                    match p {
                        Some(q) => {
                            cur = q;
                        },
                        None => {
                            return None;
                        },
                    }
                },
            }
        }
    }

    /// Appends text to the output sink.
    pub fn write(&mut self, text: &Vec<u8>)
        requires
            old(self).wf(),
        ensures
            final(self).wf(),
            final(self).view() == (EnvV { output: old(self).view().output + text@, ..old(self).view() }),
    {
        let n = text.len();
        let mut i: usize = 0;
        while i < n
            invariant
                n == text@.len(),
                0 <= i <= n,
                self.parents == old(self).parents,
                self.bindings == old(self).bindings,
                self.current == old(self).current,
                self.steps == old(self).steps,
                self.output@ == old(self).output@ + text@.subrange(0, i as int),
            decreases n - i,
        {
            self.output.push(text[i]);
            proof {
                assert(self.output@ =~= old(self).output@ + text@.subrange(0, i + 1));
            }
            i += 1;
        }
        proof {
            assert(self.output@ =~= old(self).output@ + text@);
            assert(self.view().frames =~= old(self).view().frames);
            assert(self.view() == (EnvV { output: old(self).view().output + text@, ..old(self).view() }));
        }
    }

    /// Appends one byte to the output sink.
    pub fn write_byte(&mut self, b: u8)
        requires
            old(self).wf(),
        ensures
            final(self).wf(),
            final(self).view() == (EnvV { output: old(self).view().output.push(b), ..old(self).view() }),
    {
        self.output.push(b);
        proof {
            assert(self.view().frames =~= old(self).view().frames);
            assert(self.view().output =~= old(self).view().output.push(b));
            assert(self.view() == (EnvV { output: old(self).view().output.push(b), ..old(self).view() }));
        }
    }

    /// One step of the logical clock.
    pub fn tick(&mut self)
        requires
            old(self).wf(),
        ensures
            final(self).wf(),
            final(self).view() == (EnvV { steps: spec_tick(old(self).view().steps), ..old(self).view() }),
    {
        if self.steps < u64::MAX {
            self.steps = self.steps + 1;
        }
        proof {
            assert(self.view().frames =~= old(self).view().frames);
            assert(self.view() == (EnvV { steps: spec_tick(old(self).view().steps), ..old(self).view() }));
        }
    }

    /// The step count so far.
    pub fn steps(&self) -> (r: u64)
        ensures
            r as nat == self.view().steps,
    {
        self.steps
    }

    /// What the `clock` built-in yields now.
    pub fn clock_value(&self) -> (r: i64)
        ensures
            r as int == spec_clock_value(self.view().steps),
    {
        if self.steps > 9_223_372_036_854u64 {
            proof {
                vstd::arithmetic::mul::lemma_mul_inequality(
                    9_223_372_036_855,
                    self.steps as int,
                    1_000_000,
                );
            }
            i64::MAX
        } else {
            proof {
                vstd::arithmetic::mul::lemma_mul_inequality(
                    self.steps as int,
                    9_223_372_036_854,
                    1_000_000,
                );
            }
            (self.steps as i64) * 1_000_000
        }
    }

    /// The output written so far.
    pub fn output(&self) -> (r: &Vec<u8>)
        ensures
            r@ == self.view().output,
    {
        &self.output
    }
}


/// In a well-shaped environment, whatever a lookup finds is itself
/// well-shaped.
pub proof fn lemma_lookup_wf(m: EnvV, idx: int, name: Seq<u8>)
    requires
        env_wf(m),
        0 <= idx < m.frames.len(),
    ensures
        match lookup_in(m, idx, name) {
            Some(v) => val_wf(v, m.frames.len() as int),
            None => true,
        },
    decreases idx,
{
    if m.frames[idx].vars.dom().contains(name) {
    } else {
        match m.frames[idx].parent {
            Some(p) => {
                if 0 <= p < idx {
                    lemma_lookup_wf(m, p, name);
                }
            },
            None => {},
        }
    }
}

/// Assignment leaves the shape of the environment alone: same frames
/// count, same parents, same current, and every stored value stays
/// well-shaped when the new one is.
pub proof fn lemma_assign_wf(m: EnvV, idx: int, name: Seq<u8>, v: ValueV)
    requires
        env_wf(m),
        val_wf(v, m.frames.len() as int),
        0 <= idx < m.frames.len(),
    ensures
        match env_assign(m, idx, name, v) {
            Some(m2) => env_wf(m2) && m2.frames.len() == m.frames.len() && m2.current == m.current
                && m2.output == m.output && m2.steps == m.steps,
            None => true,
        },
    decreases idx,
{
    if m.frames[idx].vars.dom().contains(name) {
        let m2 = env_assign(m, idx, name, v)->0;
        assert forall|i: int|
            0 <= i < m2.frames.len() implies match (#[trigger] m2.frames[i]).parent {
            Some(p) => 0 <= p < i,
            None => true,
        } by {
            assert(m2.frames[i].parent == m.frames[i].parent);
        }
        assert forall|i: int, k: Seq<u8>|
            0 <= i < m2.frames.len() && (#[trigger] m2.frames[i].vars.dom().contains(k)) implies val_wf(
            m2.frames[i].vars[k],
            m2.frames.len() as int,
        ) by {
            if i == idx && k != name {
                assert(m.frames[i].vars.dom().contains(k));
                assert(m2.frames[i].vars[k] == m.frames[i].vars[k]);
            }
            if i != idx {
                assert(m2.frames[i] == m.frames[i]);
            }
        }
    } else {
        match m.frames[idx].parent {
            Some(p) => {
                if 0 <= p < idx {
                    lemma_assign_wf(m, p, name, v);
                }
            },
            None => {},
        }
    }
}


/// Law: a binding is mutated in place. Where the chain from `idx` reads
/// a binding for `name`, an assignment through that same chain
/// overwrites exactly that binding — frames nearer than the one that
/// holds it are untouched — and the next lookup reads the new value.
/// Together with capture-by-reference this is what keeps a closure's
/// captured variable alive and advancing across calls: every call
/// writes and rereads the one binding in the defining frame.
pub proof fn lemma_assign_then_lookup(m: EnvV, idx: int, name: Seq<u8>, v: ValueV)
    requires
        env_wf(m),
        0 <= idx < m.frames.len(),
        lookup_in(m, idx, name) is Some,
    ensures
        env_assign(m, idx, name, v) matches Some(m2) && lookup_in(m2, idx, name) == Some(v)
            && m2.frames.len() == m.frames.len() && (forall|j: int|
            idx < j < m.frames.len() ==> m2.frames[j] == #[trigger] m.frames[j]),
    decreases idx,
{
    if m.frames[idx].vars.dom().contains(name) {
        let m2 = env_assign(m, idx, name, v)->0;
        assert(m2.frames.len() == m.frames.len());
        assert(m2.frames[idx].vars.dom().contains(name));
        assert(m2.frames[idx].vars[name] == v);
        assert(lookup_in(m2, idx, name) == Some(v));
        assert forall|j: int| idx < j < m.frames.len() implies m2.frames[j] == #[trigger] m.frames[j] by {
            assert(m2.frames == m.frames.update(idx, m2.frames[idx]));
        }
    } else {
        match m.frames[idx].parent {
            Some(p) => {
                if 0 <= p < idx {
                    lemma_assign_then_lookup(m, p, name, v);
                    let m2 = env_assign(m, p, name, v)->0;
                    assert(env_assign(m, idx, name, v) == Some(m2));
                    assert(m2.frames[idx] == m.frames[idx]);
                    assert(!m2.frames[idx].vars.dom().contains(name));
                    assert(m2.frames[idx].parent == Some(p));
                    assert(lookup_in(m2, idx, name) == lookup_in(m2, p, name));
                }
            },
            None => {},
        }
    }
}

/// The index of the binding of (`f`, `name`), if the store holds one.
fn find_binding(b: &Vec<Binding>, f: usize, name: &Vec<u8>) -> (r: Option<usize>)
    ensures
        match r {
            Some(i) => i < b@.len() && b@[i as int].frame == f && b@[i as int].name@ == name@,
            None => forall|i: int|
                0 <= i < b@.len() ==> !((#[trigger] b@[i]).frame == f && b@[i].name@ == name@),
        },
{
    let n = b.len();
    let mut i: usize = 0;
    while i < n
        invariant
            n == b@.len(),
            0 <= i <= n,
            forall|k: int| 0 <= k < i ==> !((#[trigger] b@[k]).frame == f && b@[k].name@ == name@),
        decreases n - i,
    {
        if b[i].frame == f && crate::lox_object::bytes_eq(&b[i].name, name) {
            return Some(i);
        }
        i += 1;
    }
    None
}

} // verus!
