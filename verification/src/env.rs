//! Environments: a stack of frames, each a mapping from names to values.
//!
//! The innermost frame is the last one. A lookup goes from the innermost
//! frame outwards; a definition always lands in the innermost frame.

use vstd::prelude::*;
use crate::bytes::copy_bytes;
use crate::bytes::same_bytes;
use crate::value::NativeFunction;
use crate::value::NativeMacro;
use crate::value::Value;
use crate::value::ValueView;

verus! {

/// What one frame stands for: a mapping from names to values.
pub type FrameView = Map<Seq<u8>, ValueView>;

/// What an environment stands for: its frames, the innermost last.
pub type EnvView = Seq<Map<Seq<u8>, ValueView>>;

/// The value that `name` is bound to in the innermost frame that binds it.
pub open spec fn lookup(env: EnvView, name: Seq<u8>) -> Option<ValueView>
    decreases env.len(),
{
    if env.len() == 0 {
        None
    } else if env.last().contains_key(name) {
        Some(env.last()[name])
    } else {
        lookup(env.drop_last(), name)
    }
}

/// The environment in which the innermost frame binds `name` to `value`, and
/// everything else is as in `env`.
pub open spec fn define(env: EnvView, name: Seq<u8>, value: ValueView) -> EnvView {
    if env.len() == 0 {
        env
    } else {
        env.update(env.len() - 1, env.last().insert(name, value))
    }
}

/// The environment with a fresh, empty innermost frame.
pub open spec fn enter(env: EnvView) -> EnvView {
    env.push(Map::empty())
}

/// The environment without its innermost frame.
pub open spec fn leave(env: EnvView) -> EnvView {
    env.drop_last()
}

/// The name `plus`.
pub open spec fn plus_name() -> Seq<u8> {
    seq!['p' as u8, 'l' as u8, 'u' as u8, 's' as u8]
}

/// The name `let`.
pub open spec fn let_name() -> Seq<u8> {
    seq!['l' as u8, 'e' as u8, 't' as u8]
}

/// The name `id`.
pub open spec fn id_name() -> Seq<u8> {
    seq!['i' as u8, 'd' as u8]
}

/// The name `scope`.
pub open spec fn scope_name() -> Seq<u8> {
    seq!['s' as u8, 'c' as u8, 'o' as u8, 'p' as u8, 'e' as u8]
}

/// The name `def`.
pub open spec fn def_name() -> Seq<u8> {
    seq!['d' as u8, 'e' as u8, 'f' as u8]
}

/// The native bindings of a root environment.
pub open spec fn builtins() -> FrameView {
    Map::<Seq<u8>, ValueView>::empty().insert(
        plus_name(),
        ValueView::NativeFunction(NativeFunction::Plus),
    ).insert(let_name(), ValueView::NativeMacro(NativeMacro::Let)).insert(
        id_name(),
        ValueView::NativeFunction(NativeFunction::Id),
    ).insert(scope_name(), ValueView::NativeMacro(NativeMacro::Scope)).insert(
        def_name(),
        ValueView::NativeMacro(NativeMacro::Def),
    )
}

struct Binding {
    name: Vec<u8>,
    value: Value,
}

/// One frame: its bindings, in the order in which the names were first
/// bound. No name is bound twice.
struct Frame {
    bindings: Vec<Binding>,
}

/// Whether no two of the bindings bind one name.
spec fn distinct_names(bindings: Seq<Binding>) -> bool {
    forall|i: int, j: int|
        0 <= i < j < bindings.len() ==> (#[trigger] bindings[i]).name@
            != (#[trigger] bindings[j]).name@
}

impl Frame {
    #[verifier::type_invariant]
    spec fn binds_no_name_twice(self) -> bool {
        distinct_names(self.bindings@)
    }
}

/// The mapping that a list of bindings stands for.
spec fn bindings_view(bindings: Seq<Binding>) -> FrameView
    decreases bindings.len(),
{
    if bindings.len() == 0 {
        Map::empty()
    } else {
        bindings_view(bindings.drop_last()).insert(bindings.last().name@, bindings.last().value@)
    }
}

proof fn lemma_bindings_view_absent(bindings: Seq<Binding>, name: Seq<u8>)
    requires
        forall|j: int| 0 <= j < bindings.len() ==> (#[trigger] bindings[j]).name@ != name,
    ensures
        !bindings_view(bindings).contains_key(name),
    decreases bindings.len(),
{
    if bindings.len() > 0 {
        lemma_bindings_view_absent(bindings.drop_last(), name);
    }
}

proof fn lemma_bindings_view_found(bindings: Seq<Binding>, i: int, name: Seq<u8>)
    requires
        0 <= i < bindings.len(),
        bindings[i].name@ == name,
        forall|j: int| i < j < bindings.len() ==> (#[trigger] bindings[j]).name@ != name,
    ensures
        bindings_view(bindings).contains_key(name),
        bindings_view(bindings)[name] == bindings[i].value@,
    decreases bindings.len(),
{
    if i < bindings.len() - 1 {
        lemma_bindings_view_found(bindings.drop_last(), i, name);
    }
}

proof fn lemma_bindings_view_update(bindings: Seq<Binding>, i: int, binding: Binding)
    requires
        0 <= i < bindings.len(),
        bindings[i].name@ == binding.name@,
        forall|j: int| i < j < bindings.len() ==> (#[trigger] bindings[j]).name@ != binding.name@,
    ensures
        bindings_view(bindings.update(i, binding)) == bindings_view(bindings).insert(
            binding.name@,
            binding.value@,
        ),
    decreases bindings.len(),
{
    let updated = bindings.update(i, binding);
    if i == bindings.len() - 1 {
        assert(updated.drop_last() =~= bindings.drop_last());
    } else {
        lemma_bindings_view_update(bindings.drop_last(), i, binding);
        assert(updated.drop_last() =~= bindings.drop_last().update(i, binding));
    }
}

proof fn lemma_bindings_view_same(a: Seq<Binding>, b: Seq<Binding>)
    requires
        a.len() == b.len(),
        forall|j: int| 0 <= j < a.len() ==> (#[trigger] a[j]).name@ == b[j].name@,
        forall|j: int| 0 <= j < a.len() ==> (#[trigger] a[j]).value@ == b[j].value@,
    ensures
        bindings_view(a) == bindings_view(b),
    decreases a.len(),
{
    if a.len() > 0 {
        lemma_bindings_view_same(a.drop_last(), b.drop_last());
    }
}

/// The place of the last binding of `name`, if there is one.
fn find_binding(bindings: &Vec<Binding>, name: &[u8]) -> (found: Option<usize>)
    ensures
        match found {
            Some(i) => {
                &&& i < bindings.len()
                &&& bindings[i as int].name@ == name@
                &&& bindings_view(bindings@).contains_key(name@)
                &&& bindings_view(bindings@)[name@] == bindings[i as int].value@
                &&& forall|j: int|
                    i < j < bindings.len() ==> (#[trigger] bindings[j]).name@ != name@
            },
            None => {
                &&& !bindings_view(bindings@).contains_key(name@)
                &&& forall|j: int|
                    0 <= j < bindings.len() ==> (#[trigger] bindings[j]).name@ != name@
            },
        },
{
    let mut i: usize = bindings.len();
    while i > 0
        invariant
            i <= bindings.len(),
            forall|j: int| i <= j < bindings.len() ==> (#[trigger] bindings[j]).name@ != name@,
        decreases i,
    {
        i -= 1;
        if same_bytes(bindings[i].name.as_slice(), name) {
            proof {
                lemma_bindings_view_found(bindings@, i as int, name@);
            }
            return Some(i);
        }
    }
    proof {
        lemma_bindings_view_absent(bindings@, name@);
    }
    None
}

/// An environment: a root frame and the frames nested in it.
pub struct Env {
    root: Frame,
    nested: Vec<Frame>,
}

impl View for Env {
    type V = EnvView;

    closed spec fn view(&self) -> EnvView {
        seq![bindings_view(self.root.bindings@)] + Seq::new(
            self.nested.len() as nat,
            |i: int| bindings_view(self.nested[i].bindings@),
        )
    }
}

/// Binds `name` to `value` in a frame, and returns the value that the frame
/// bound it to before, if it did.
fn bind(frame: &mut Frame, name: Vec<u8>, value: Value) -> (previous: Option<Value>)
    ensures
        bindings_view(final(frame).bindings@) == bindings_view(old(frame).bindings@).insert(
            name@,
            value@,
        ),
        match previous {
            Some(v) => bindings_view(old(frame).bindings@).contains_key(name@) && v@
                == bindings_view(old(frame).bindings@)[name@],
            None => !bindings_view(old(frame).bindings@).contains_key(name@),
        },
{
    let ghost before = frame.bindings@;
    proof {
        use_type_invariant(&*frame);
    }
    let mut bindings: Vec<Binding> = Vec::new();
    core::mem::swap(&mut frame.bindings, &mut bindings);
    let previous = match find_binding(&bindings, name.as_slice()) {
        Some(i) => {
            let mut value = value;
            let ghost binding = Binding { name: before[i as int].name, value };
            proof {
                lemma_bindings_view_update(before, i as int, binding);
            }
            core::mem::swap(&mut bindings[i].value, &mut value);
            Some(value)
        },
        None => {
            bindings.push(Binding { name, value });
            assert(bindings@.drop_last() =~= before);
            None
        },
    };
    core::mem::swap(&mut frame.bindings, &mut bindings);
    previous
}

/// A copy of a frame, binding by binding.
fn copy_frame(frame: &Frame) -> (copy: Frame)
    ensures
        bindings_view(copy.bindings@) == bindings_view(frame.bindings@),
{
    let mut bindings: Vec<Binding> = Vec::new();
    let mut i: usize = 0;
    while i < frame.bindings.len()
        invariant
            i <= frame.bindings.len(),
            bindings.len() == i,
            forall|j: int| 0 <= j < i ==> (#[trigger] bindings[j]).name@ == frame.bindings[j].name@,
            forall|j: int|
                0 <= j < i ==> (#[trigger] bindings[j]).value@ == frame.bindings[j].value@,
        decreases frame.bindings.len() - i,
    {
        bindings.push(
            Binding {
                name: copy_bytes(&frame.bindings[i].name),
                value: frame.bindings[i].value.clone(),
            },
        );
        i += 1;
    }
    proof {
        use_type_invariant(frame);
        lemma_bindings_view_same(bindings@, frame.bindings@);
    }
    Frame { bindings }
}

impl Clone for Env {
    fn clone(&self) -> (copy: Self)
        ensures
            copy@ == self@,
    {
        let root = copy_frame(&self.root);
        let mut nested: Vec<Frame> = Vec::new();
        let mut i: usize = 0;
        while i < self.nested.len()
            invariant
                i <= self.nested.len(),
                nested.len() == i,
                forall|j: int|
                    0 <= j < i ==> bindings_view((#[trigger] nested[j]).bindings@) == bindings_view(
                        self.nested[j].bindings@,
                    ),
            decreases self.nested.len() - i,
        {
            nested.push(copy_frame(&self.nested[i]));
            i += 1;
        }
        let copy = Env { root, nested };
        copy
    }
}

impl Default for Env {
    fn default() -> (env: Self)
        ensures
            env@ == seq![Map::<Seq<u8>, ValueView>::empty()],
    {
        Env::new()
    }
}

impl Env {
    /// An environment of one empty frame.
    pub fn new() -> (env: Self)
        ensures
            env@ == seq![Map::<Seq<u8>, ValueView>::empty()],
    {
        let env = Env { root: Frame { bindings: Vec::new() }, nested: Vec::new() };
        env
    }

    /// A root environment: one frame, which binds `plus`, `let`, `id`,
    /// `scope` and `def` to the native operations.
    pub fn with_builtins() -> (env: Self)
        ensures
            env@ == seq![builtins()],
    {
        let mut env = Env::new();
        env.insert(
            vec!['p' as u8, 'l' as u8, 'u' as u8, 's' as u8],
            Value::NativeFunction(NativeFunction::Plus),
        );
        env.insert(vec!['l' as u8, 'e' as u8, 't' as u8], Value::NativeMacro(NativeMacro::Let));
        env.insert(vec!['i' as u8, 'd' as u8], Value::NativeFunction(NativeFunction::Id));
        env.insert(
            vec!['s' as u8, 'c' as u8, 'o' as u8, 'p' as u8, 'e' as u8],
            Value::NativeMacro(NativeMacro::Scope),
        );
        env.insert(vec!['d' as u8, 'e' as u8, 'f' as u8], Value::NativeMacro(NativeMacro::Def));
        env
    }

    /// Every environment has its root frame.
    pub proof fn lemma_has_root(&self)
        ensures
            self@.len() >= 1,
    {
    }

    /// How many frames are nested in the root frame.
    pub fn nesting(&self) -> (nesting: usize)
        ensures
            nesting == self@.len() - 1,
    {
        self.nested.len()
    }

    /// The value that `id` is bound to in the innermost frame that binds it.
    pub fn get(&self, id: &[u8]) -> (found: Option<&Value>)
        ensures
            match lookup(self@, id@) {
                Some(value) => found matches Some(v) && v@ == value,
                None => found is None,
            },
    {
        let mut k: usize = self.nested.len();
        assert(self@.subrange(0, k + 1) =~= self@);
        while k > 0
            invariant
                k <= self.nested.len(),
                lookup(self@, id@) == lookup(self@.subrange(0, k + 1), id@),
            decreases k,
        {
            let ghost outer = self@.subrange(0, k + 1);
            k -= 1;
            assert(outer.drop_last() =~= self@.subrange(0, k + 1));
            match find_binding(&self.nested[k].bindings, id) {
                Some(i) => {
                    return Some(&self.nested[k].bindings[i].value);
                },
                None => {},
            }
        }
        let ghost outer = self@.subrange(0, 1);
        assert(lookup(outer.drop_last(), id@) is None);
        match find_binding(&self.root.bindings, id) {
            Some(i) => Some(&self.root.bindings[i].value),
            None => None,
        }
    }

    /// Binds `id` to `value` in the innermost frame, and returns the value
    /// that this frame bound it to before, if it did.
    pub fn insert(&mut self, id: Vec<u8>, value: Value) -> (previous: Option<Value>)
        ensures
            final(self)@ == define(old(self)@, id@, value@),
            match previous {
                Some(v) => old(self)@.last().contains_key(id@) && v@ == old(self)@.last()[id@],
                None => !old(self)@.last().contains_key(id@),
            },
    {
        let count = self.nested.len();
        if count == 0 {
            bind(&mut self.root, id, value)
        } else {
            bind(&mut self.nested[count - 1], id, value)
        }
    }

    /// Opens a fresh, empty innermost frame.
    pub fn push_frame(&mut self)
        ensures
            final(self)@ == enter(old(self)@),
    {
        self.nested.push(Frame { bindings: Vec::new() });
    }

    /// Drops the innermost frame and all its bindings. The root frame stays:
    /// an environment of one frame is left as it is.
    pub fn pop_frame(&mut self)
        ensures
            final(self)@ == if old(self)@.len() >= 2 {
                leave(old(self)@)
            } else {
                old(self)@
            },
    {
        self.nested.pop();
    }
}

} // verus!
