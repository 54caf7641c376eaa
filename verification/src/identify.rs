use vstd::prelude::*;

use crate::scoped_id::ScopedId;
use crate::span::Span;

verus! {

/// Mathematical value of one name binding.
pub ghost struct BindingView {
    pub name: Seq<char>,
    pub id: Seq<u64>,
    pub span: Span,
}

/// One name bound in a namespace: the name, the id it resolved to, and the
/// span of its defining occurrence.
pub struct Binding {
    pub name: String,
    pub id: ScopedId,
    pub span: Span,
}

impl View for Binding {
    type V = BindingView;

    open spec fn view(&self) -> BindingView {
        BindingView { name: self.name@, id: self.id@, span: self.span }
    }
}

/// The view of one namespace's bindings, oldest first.
pub open spec fn bindings_view(s: Seq<Binding>) -> Seq<BindingView> {
    s.map_values(|b: Binding| b@)
}

/// Lookup in one namespace: the binding added last wins, so a later
/// definition of a name overrides an earlier one.
pub open spec fn scope_lookup(frame: Seq<BindingView>, name: Seq<char>) -> Option<BindingView>
    decreases frame.len(),
{
    if frame.len() == 0 {
        Option::None
    } else if frame.last().name == name {
        Option::Some(frame.last())
    } else {
        scope_lookup(frame.drop_last(), name)
    }
}

/// Lookup across the frame stack, innermost frame first: the nearest
/// binding of the name, or none. The global namespace is not consulted.
pub open spec fn frames_lookup(frames: Seq<Seq<BindingView>>, name: Seq<char>) -> Option<
    BindingView,
>
    decreases frames.len(),
{
    if frames.len() == 0 {
        Option::None
    } else {
        match scope_lookup(frames.last(), name) {
            Option::Some(b) => Option::Some(b),
            Option::None => frames_lookup(frames.drop_last(), name),
        }
    }
}

/// Reverse lookup by id in one namespace, latest binding first.
pub open spec fn scope_rev_lookup(frame: Seq<BindingView>, id: Seq<u64>) -> Option<BindingView>
    decreases frame.len(),
{
    if frame.len() == 0 {
        Option::None
    } else if frame.last().id == id {
        Option::Some(frame.last())
    } else {
        scope_rev_lookup(frame.drop_last(), id)
    }
}

/// Reverse lookup by id across the frame stack, innermost frame first.
pub open spec fn frames_rev_lookup(frames: Seq<Seq<BindingView>>, id: Seq<u64>) -> Option<
    BindingView,
>
    decreases frames.len(),
{
    if frames.len() == 0 {
        Option::None
    } else {
        match scope_rev_lookup(frames.last(), id) {
            Option::Some(b) => Option::Some(b),
            Option::None => frames_rev_lookup(frames.drop_last(), id),
        }
    }
}

/// The binding `scope_lookup` denotes is the last one bearing the name.
pub proof fn lemma_scope_lookup_found(frame: Seq<BindingView>, name: Seq<char>, j: int)
    requires
        0 <= j < frame.len(),
        frame[j].name == name,
        forall|k: int| j < k < frame.len() ==> frame[k].name != name,
    ensures
        scope_lookup(frame, name) == Option::Some(frame[j]),
    decreases frame.len(),
{
    if j < frame.len() - 1 {
        assert(frame.last().name != name);
        assert(frame.drop_last()[j] == frame[j]);
        lemma_scope_lookup_found(frame.drop_last(), name, j);
    }
}

proof fn lemma_scope_lookup_none(frame: Seq<BindingView>, name: Seq<char>)
    requires
        forall|k: int| 0 <= k < frame.len() ==> frame[k].name != name,
    ensures
        scope_lookup(frame, name) is None,
    decreases frame.len(),
{
    if frame.len() > 0 {
        lemma_scope_lookup_none(frame.drop_last(), name);
    }
}

proof fn lemma_frames_lookup_found(frames: Seq<Seq<BindingView>>, name: Seq<char>, i: int)
    requires
        0 <= i < frames.len(),
        scope_lookup(frames[i], name) is Some,
        forall|k: int| i < k < frames.len() ==> scope_lookup(frames[k], name) is None,
    ensures
        frames_lookup(frames, name) == scope_lookup(frames[i], name),
    decreases frames.len(),
{
    if i < frames.len() - 1 {
        assert(scope_lookup(frames.last(), name) is None);
        assert(frames.drop_last()[i] == frames[i]);
        lemma_frames_lookup_found(frames.drop_last(), name, i);
    }
}

proof fn lemma_frames_lookup_none(frames: Seq<Seq<BindingView>>, name: Seq<char>)
    requires
        forall|k: int| 0 <= k < frames.len() ==> scope_lookup(frames[k], name) is None,
    ensures
        frames_lookup(frames, name) is None,
    decreases frames.len(),
{
    if frames.len() > 0 {
        lemma_frames_lookup_none(frames.drop_last(), name);
    }
}

proof fn lemma_scope_rev_lookup_found(frame: Seq<BindingView>, id: Seq<u64>, j: int)
    requires
        0 <= j < frame.len(),
        frame[j].id == id,
        forall|k: int| j < k < frame.len() ==> frame[k].id != id,
    ensures
        scope_rev_lookup(frame, id) == Option::Some(frame[j]),
    decreases frame.len(),
{
    if j < frame.len() - 1 {
        assert(frame.last().id != id);
        assert(frame.drop_last()[j] == frame[j]);
        lemma_scope_rev_lookup_found(frame.drop_last(), id, j);
    }
}

proof fn lemma_scope_rev_lookup_none(frame: Seq<BindingView>, id: Seq<u64>)
    requires
        forall|k: int| 0 <= k < frame.len() ==> frame[k].id != id,
    ensures
        scope_rev_lookup(frame, id) is None,
    decreases frame.len(),
{
    if frame.len() > 0 {
        lemma_scope_rev_lookup_none(frame.drop_last(), id);
    }
}

proof fn lemma_frames_rev_lookup_found(frames: Seq<Seq<BindingView>>, id: Seq<u64>, i: int)
    requires
        0 <= i < frames.len(),
        scope_rev_lookup(frames[i], id) is Some,
        forall|k: int| i < k < frames.len() ==> scope_rev_lookup(frames[k], id) is None,
    ensures
        frames_rev_lookup(frames, id) == scope_rev_lookup(frames[i], id),
    decreases frames.len(),
{
    if i < frames.len() - 1 {
        assert(scope_rev_lookup(frames.last(), id) is None);
        assert(frames.drop_last()[i] == frames[i]);
        lemma_frames_rev_lookup_found(frames.drop_last(), id, i);
    }
}

proof fn lemma_frames_rev_lookup_none(frames: Seq<Seq<BindingView>>, id: Seq<u64>)
    requires
        forall|k: int| 0 <= k < frames.len() ==> scope_rev_lookup(frames[k], id) is None,
    ensures
        frames_rev_lookup(frames, id) is None,
    decreases frames.len(),
{
    if frames.len() > 0 {
        lemma_frames_rev_lookup_none(frames.drop_last(), id);
    }
}

/// A name that resolves has a reverse entry for its id: `info_for` cannot
/// come back empty for an id that `get` just produced.
pub proof fn lemma_lookup_has_info(frames: Seq<Seq<BindingView>>, name: Seq<char>)
    requires
        frames_lookup(frames, name) is Some,
    ensures
        frames_rev_lookup(frames, frames_lookup(frames, name).unwrap().id) is Some,
    decreases frames.len(),
{
    if frames.len() > 0 {
        match scope_lookup(frames.last(), name) {
            Option::Some(_) => {
                lemma_scope_lookup_in_rev(frames.last(), name);
            },
            Option::None => {
                lemma_lookup_has_info(frames.drop_last(), name);
            },
        }
    }
}

proof fn lemma_scope_lookup_in_rev(frame: Seq<BindingView>, name: Seq<char>)
    requires
        scope_lookup(frame, name) is Some,
    ensures
        scope_rev_lookup(frame, scope_lookup(frame, name).unwrap().id) is Some,
    decreases frame.len(),
{
    if frame.len() > 0 && frame.last().name != name {
        lemma_scope_lookup_in_rev(frame.drop_last(), name);
        let b = scope_lookup(frame, name).unwrap();
        if frame.last().id == b.id {
        }
    }
}

/// A name that fails to resolve is absent from every frame.
pub proof fn lemma_frames_lookup_none_each(frames: Seq<Seq<BindingView>>, name: Seq<char>)
    requires
        frames_lookup(frames, name) is None,
    ensures
        forall|k: int| 0 <= k < frames.len() ==> scope_lookup(#[trigger] frames[k], name) is None,
    decreases frames.len(),
{
    if frames.len() > 0 {
        lemma_frames_lookup_none_each(frames.drop_last(), name);
        assert forall|k: int| 0 <= k < frames.len() implies scope_lookup(
            #[trigger] frames[k],
            name,
        ) is None by {
            if k < frames.len() - 1 {
                assert(frames.drop_last()[k] == frames[k]);
            }
        }
    }
}

/// A name borne by any binding of a frame resolves in that frame.
pub proof fn lemma_scope_lookup_present(frame: Seq<BindingView>, name: Seq<char>, k: int)
    requires
        0 <= k < frame.len(),
        frame[k].name == name,
    ensures
        scope_lookup(frame, name) is Some,
    decreases frame.len(),
{
    if frame.last().name != name {
        assert(frame.drop_last()[k] == frame[k]);
        lemma_scope_lookup_present(frame.drop_last(), name, k);
    }
}

/// Mathematical value of the scope builder: the stack of local frames,
/// innermost last, and the flat global namespace.
pub ghost struct BuilderView {
    pub frames: Seq<Seq<BindingView>>,
    pub globals: Seq<BindingView>,
}

/// The sole authority over name visibility during one resolution pass: a
/// stack of local frames pushed and popped as lexical regions open and
/// close, plus one flat global namespace for entities that must remain
/// resolvable after their defining scope closes.
pub struct NameScopeBuilder {
    pub scopes: Vec<Vec<Binding>>,
    pub globals: Vec<Binding>,
}

impl View for NameScopeBuilder {
    type V = BuilderView;

    open spec fn view(&self) -> BuilderView {
        BuilderView {
            frames: self.scopes@.map_values(|f: Vec<Binding>| bindings_view(f@)),
            globals: bindings_view(self.globals@),
        }
    }
}

impl NameScopeBuilder {
    /// A builder with no frames and an empty global namespace.
    pub fn new() -> (r: NameScopeBuilder)
        ensures
            r@.frames == Seq::<Seq<BindingView>>::empty(),
            r@.globals == Seq::<BindingView>::empty(),
    {
        let r = NameScopeBuilder { scopes: Vec::new(), globals: Vec::new() };
        proof {
            assert(r@.frames =~= Seq::<Seq<BindingView>>::empty());
            assert(r@.globals =~= Seq::<BindingView>::empty());
        }
        r
    }

    /// Push a fresh innermost frame, on entering a lexical region.
    pub fn new_scope(&mut self)
        ensures
            final(self)@.frames == old(self)@.frames.push(Seq::<BindingView>::empty()),
            final(self)@.globals == old(self)@.globals,
    {
        let ghost pre = self@;
        self.scopes.push(Vec::new());
        proof {
            assert(self@.frames =~~= pre.frames.push(Seq::<BindingView>::empty()));
        }
    }

    /// Discard the innermost frame, on leaving a lexical region.
    pub fn pop(&mut self)
        requires
            old(self)@.frames.len() > 0,
        ensures
            final(self)@.frames == old(self)@.frames.drop_last(),
            final(self)@.globals == old(self)@.globals,
    {
        let ghost pre = self@;
        self.scopes.pop();
        proof {
            assert(self@.frames =~= pre.frames.drop_last());
        }
    }

    /// Bind a name in the innermost frame. Callers have already checked
    /// via `get` that the name does not collide with a visible binding.
    pub fn define_local(&mut self, name: String, id: ScopedId, span: Span)
        requires
            old(self)@.frames.len() > 0,
            frames_lookup(old(self)@.frames, name@) is None,
        ensures
            final(self)@.frames == old(self)@.frames.update(
                old(self)@.frames.len() - 1,
                old(self)@.frames.last().push(BindingView { name: name@, id: id@, span }),
            ),
            final(self)@.globals == old(self)@.globals,
    {
        let ghost pre = self@;
        let ghost b = BindingView { name: name@, id: id@, span };
        let depth = self.scopes.len();
        let frame = &mut self.scopes[depth - 1];
        frame.push(Binding { name, id, span });
        proof {
            assert(self@.frames =~~= pre.frames.update(
                pre.frames.len() - 1,
                pre.frames.last().push(b),
            ));
        }
    }

    /// Bind a name in the flat global namespace, regardless of the frame
    /// stack; a binding added later for the same name overrides an earlier
    /// one.
    pub fn define_global(&mut self, name: String, id: ScopedId, span: Span)
        ensures
            final(self)@.globals == old(self)@.globals.push(
                BindingView { name: name@, id: id@, span },
            ),
            final(self)@.frames == old(self)@.frames,
    {
        let ghost pre = self@;
        let ghost b = BindingView { name: name@, id: id@, span };
        self.globals.push(Binding { name, id, span });
        proof {
            assert(self@.globals =~= pre.globals.push(b));
            assert(self@.frames =~= pre.frames);
        }
    }

    /// The nearest visible binding of a name, searching the frames
    /// innermost to outermost; the global namespace is not consulted.
    pub fn get(&self, name: &String) -> (r: Option<ScopedId>)
        ensures
            r is Some <==> frames_lookup(self@.frames, name@) is Some,
            r is Some ==> r.unwrap()@ == frames_lookup(self@.frames, name@).unwrap().id,
    {
        let mut i: usize = self.scopes.len();
        while i > 0
            invariant
                i <= self.scopes@.len(),
                forall|k: int|
                    i <= k < self.scopes@.len() ==> scope_lookup(self@.frames[k], name@) is None,
            decreases i,
        {
            i = i - 1;
            match Self::scope_get_index(&self.scopes[i], name) {
                Option::Some(j) => {
                    proof {
                        lemma_frames_lookup_found(self@.frames, name@, i as int);
                    }
                    return Option::Some(self.scopes[i][j].id.snapshot());
                },
                Option::None => {},
            }
        }
        proof {
            lemma_frames_lookup_none(self@.frames, name@);
        }
        Option::None
    }

    /// The index in one frame of the binding that `scope_lookup` denotes.
    fn scope_get_index(frame: &Vec<Binding>, name: &String) -> (r: Option<usize>)
        ensures
            match r {
                Option::Some(j) => j < frame@.len() && scope_lookup(bindings_view(frame@), name@)
                    == Option::Some(frame@[j as int]@),
                Option::None => scope_lookup(bindings_view(frame@), name@) is None,
            },
    {
        let mut j: usize = frame.len();
        while j > 0
            invariant
                j <= frame@.len(),
                forall|k: int| j <= k < frame@.len() ==> frame@[k]@.name != name@,
            decreases j,
        {
            j = j - 1;
            if frame[j].name == *name {
                proof {
                    lemma_scope_lookup_found(bindings_view(frame@), name@, j as int);
                }
                return Option::Some(j);
            }
        }
        proof {
            lemma_scope_lookup_none(bindings_view(frame@), name@);
        }
        Option::None
    }

    /// The defining span recorded for an already-assigned id, used to cite
    /// the previous definition in an "already declared" diagnostic.
    pub fn info_for(&self, id: &ScopedId) -> (r: Option<Span>)
        ensures
            r is Some <==> frames_rev_lookup(self@.frames, id@) is Some,
            r is Some ==> r.unwrap() == frames_rev_lookup(self@.frames, id@).unwrap().span,
    {
        let mut i: usize = self.scopes.len();
        while i > 0
            invariant
                i <= self.scopes@.len(),
                forall|k: int|
                    i <= k < self.scopes@.len() ==> scope_rev_lookup(self@.frames[k], id@)
                        is None,
            decreases i,
        {
            i = i - 1;
            match Self::scope_rev_index(&self.scopes[i], id) {
                Option::Some(j) => {
                    proof {
                        lemma_frames_rev_lookup_found(self@.frames, id@, i as int);
                    }
                    return Option::Some(self.scopes[i][j].span);
                },
                Option::None => {},
            }
        }
        proof {
            lemma_frames_rev_lookup_none(self@.frames, id@);
        }
        Option::None
    }

    /// The index in one frame of the binding that `scope_rev_lookup`
    /// denotes.
    fn scope_rev_index(frame: &Vec<Binding>, id: &ScopedId) -> (r: Option<usize>)
        ensures
            match r {
                Option::Some(j) => j < frame@.len() && scope_rev_lookup(bindings_view(frame@), id@)
                    == Option::Some(frame@[j as int]@),
                Option::None => scope_rev_lookup(bindings_view(frame@), id@) is None,
            },
    {
        let mut j: usize = frame.len();
        while j > 0
            invariant
                j <= frame@.len(),
                forall|k: int| j <= k < frame@.len() ==> frame@[k]@.id != id@,
            decreases j,
        {
            j = j - 1;
            if frame[j].id == *id {
                proof {
                    lemma_scope_rev_lookup_found(bindings_view(frame@), id@, j as int);
                }
                return Option::Some(j);
            }
        }
        proof {
            lemma_scope_rev_lookup_none(bindings_view(frame@), id@);
        }
        Option::None
    }
}

} // verus!
