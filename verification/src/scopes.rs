use vstd::prelude::*;

use crate::errors::EgoError;
use crate::text::str_eq;

verus! {

/// A runtime value. Evaluation keeps the three kinds distinct: strings,
/// numbers and booleans obey different comparison and rendering rules.
#[derive(Debug)]
pub enum Value {
    Str(String),
    Num(i64),
    Bool(bool),
}

/// The mathematical model of a runtime value.
pub enum ValueModel {
    Str(Seq<char>),
    Num(i64),
    Bool(bool),
}

impl View for Value {
    type V = ValueModel;

    open spec fn view(&self) -> ValueModel {
        match self {
            Value::Str(s) => ValueModel::Str(s@),
            Value::Num(n) => ValueModel::Num(*n),
            Value::Bool(b) => ValueModel::Bool(*b),
        }
    }
}

impl Clone for Value {
    fn clone(&self) -> (r: Value)
        ensures
            r@ == self@,
    {
        match self {
            Value::Str(s) => Value::Str(s.clone()),
            Value::Num(n) => Value::Num(*n),
            Value::Bool(b) => Value::Bool(*b),
        }
    }
}

/// One entry of a scope frame: an identifier bound to a value.
pub struct Binding {
    pub name: String,
    pub value: Value,
}

/// A frame is modelled as the mapping its entries build up from left to
/// right, a later entry for the same name overwriting an earlier one.
pub open spec fn frame_model(entries: Seq<Binding>) -> Map<Seq<char>, ValueModel>
    decreases entries.len(),
{
    if entries.len() == 0 {
        Map::empty()
    } else {
        frame_model(entries.drop_last()).insert(
            entries.last().name@,
            entries.last().value@,
        )
    }
}

/// The value an association list gives a name, scanning entries from the
/// most recent backwards.
pub open spec fn assoc_lookup(entries: Seq<Binding>, name: Seq<char>) -> Option<ValueModel>
    decreases entries.len(),
{
    if entries.len() == 0 {
        None
    } else if entries.last().name@ == name {
        Some(entries.last().value@)
    } else {
        assoc_lookup(entries.drop_last(), name)
    }
}

/// Scanning an association list from the most recent entry backwards
/// finds exactly what the frame's mapping holds for the name.
proof fn lemma_assoc_is_frame_model(entries: Seq<Binding>, name: Seq<char>)
    ensures
        frame_model(entries).contains_key(name) <==> assoc_lookup(entries, name) is Some,
        assoc_lookup(entries, name) matches Some(v) ==> frame_model(entries)[name] == v,
    decreases entries.len(),
{
    if entries.len() > 0 {
        lemma_assoc_is_frame_model(entries.drop_last(), name);
    }
}

/// The value a stack of frames gives a name: the innermost (most
/// recently pushed, hence last) frame that binds the name decides.
pub open spec fn stack_lookup(
    frames: Seq<Map<Seq<char>, ValueModel>>,
    name: Seq<char>,
) -> Option<ValueModel>
    decreases frames.len(),
{
    if frames.len() == 0 {
        None
    } else if frames.last().contains_key(name) {
        Some(frames.last()[name])
    } else {
        stack_lookup(frames.drop_last(), name)
    }
}

/// The stack after binding a name in the topmost frame.
pub open spec fn bind_model(
    frames: Seq<Map<Seq<char>, ValueModel>>,
    name: Seq<char>,
    v: ValueModel,
) -> Seq<Map<Seq<char>, ValueModel>> {
    frames.update(frames.len() - 1, frames.last().insert(name, v))
}

/// An ordered stack of scope frames, innermost last. It is created with
/// one root frame and never drops below one frame.
pub struct ScopesStack {
    frames: Vec<Vec<Binding>>,
}

impl View for ScopesStack {
    type V = Seq<Map<Seq<char>, ValueModel>>;

    closed spec fn view(&self) -> Seq<Map<Seq<char>, ValueModel>> {
        Seq::new(self.frames@.len(), |i: int| frame_model(self.frames@[i]@))
    }
}

impl ScopesStack {
    /// A stack always holds at least its root frame.
    pub open spec fn wf(&self) -> bool {
        self@.len() >= 1
    }

    /// A fresh stack: one empty root frame.
    pub fn new() -> (s: ScopesStack)
        ensures
            s@ =~= seq![Map::<Seq<char>, ValueModel>::empty()],
            s.wf(),
    {
        let mut frames: Vec<Vec<Binding>> = Vec::new();
        frames.push(Vec::new());
        ScopesStack { frames }
    }

    /// Appends a new empty frame; never fails.
    pub fn push(&mut self)
        ensures
            final(self)@ =~= old(self)@.push(Map::empty()),
            final(self)@.len() == old(self)@.len() + 1,
    {
        self.frames.push(Vec::new());
    }

    /// Removes the topmost frame; refuses to remove the root frame.
    pub fn pop(&mut self) -> (r: Result<(), EgoError>)
        ensures
            old(self)@.len() > 1 ==> r is Ok && final(self)@ =~= old(self)@.drop_last(),
            old(self)@.len() <= 1 ==> (r matches Err(e) && e@ is ScopeUnderflow)
                && final(self)@ == old(self)@,
    {
        if self.frames.len() > 1 {
            let _ = self.frames.pop();
            Ok(())
        } else {
            Err(EgoError::ScopeUnderflow)
        }
    }

    /// Inserts or overwrites the name in the topmost frame only; a
    /// re-declaration in the same frame is last-write-wins.
    pub fn bind(&mut self, name: &str, value: Value)
        requires
            old(self).wf(),
        ensures
            final(self)@ =~= bind_model(old(self)@, name@, value@),
            final(self).wf(),
            final(self)@.len() == old(self)@.len(),
    {
        let top = self.frames.len() - 1;
        let owned = name.to_owned();
        let tmp = &mut self.frames;
        let frame = &mut tmp[top];
        frame.push(Binding { name: owned, value });
        proof {
            let post = self@;
            let pre = old(self)@;
            assert(post.len() == pre.len());
            assert(self.frames@[top as int]@ == old(self).frames@[top as int]@.push(
                Binding { name: owned, value },
            ));
            assert(self.frames@[top as int]@.drop_last() =~= old(self).frames@[top as int]@);
            assert(post[top as int] == pre[top as int].insert(name@, value@));
            assert(forall|i: int| 0 <= i < pre.len() && i != top ==> post[i] == pre[i]);
        }
    }

    /// Searches frames innermost-first and returns the first match, or
    /// `None` when no frame binds the name.
    pub fn lookup(&self, name: &str) -> (r: Option<Value>)
        ensures
            r matches Some(v) ==> stack_lookup(self@, name@) == Some(v@),
            r is None ==> stack_lookup(self@, name@) is None,
    {
        let mut i = self.frames.len();
        proof {
            assert(self@.subrange(0, i as int) =~= self@);
        }
        while i > 0
            invariant
                i <= self.frames@.len(),
                stack_lookup(self@, name@) == stack_lookup(self@.subrange(0, i as int), name@),
            decreases i,
        {
            i = i - 1;
            let r = Self::frame_lookup(&self.frames[i], name);
            proof {
                lemma_assoc_is_frame_model(self.frames@[i as int]@, name@);
                assert(self@.subrange(0, i + 1 as int).last() == self@[i as int]);
                assert(self@.subrange(0, i + 1 as int).drop_last() =~= self@.subrange(
                    0,
                    i as int,
                ));
            }
            match r {
                Some(v) => {
                    return Some(v);
                }
                None => {}
            }
        }
        proof {
            assert(self@.subrange(0, 0) =~= Seq::<Map<Seq<char>, ValueModel>>::empty());
        }
        None
    }

    /// Scans one frame's entries from the most recent backwards.
    fn frame_lookup(entries: &Vec<Binding>, name: &str) -> (r: Option<Value>)
        ensures
            r matches Some(v) ==> assoc_lookup(entries@, name@) == Some(v@),
            r is None ==> assoc_lookup(entries@, name@) is None,
    {
        let mut j = entries.len();
        proof {
            assert(entries@.subrange(0, j as int) =~= entries@);
        }
        while j > 0
            invariant
                j <= entries@.len(),
                assoc_lookup(entries@, name@) == assoc_lookup(
                    entries@.subrange(0, j as int),
                    name@,
                ),
            decreases j,
        {
            j = j - 1;
            proof {
                assert(entries@.subrange(0, j + 1 as int).last() == entries@[j as int]);
                assert(entries@.subrange(0, j + 1 as int).drop_last() =~= entries@.subrange(
                    0,
                    j as int,
                ));
            }
            if str_eq(entries[j].name.as_str(), name) {
                return Some(entries[j].value.clone());
            }
        }
        None
    }
}

/// Pushing a fresh empty frame hides nothing: every name visible before
/// stays visible, with the same value, inside the new scope.
pub proof fn lemma_push_preserves_lookup(
    frames: Seq<Map<Seq<char>, ValueModel>>,
    name: Seq<char>,
)
    ensures
        stack_lookup(frames.push(Map::empty()), name) == stack_lookup(frames, name),
{
    assert(frames.push(Map::empty()).drop_last() =~= frames);
}

/// A name bound in the topmost frame is what lookup finds: an inner
/// binding shadows any outer binding of the same name.
pub proof fn lemma_bind_shadows(
    frames: Seq<Map<Seq<char>, ValueModel>>,
    name: Seq<char>,
    v: ValueModel,
)
    requires
        frames.len() >= 1,
    ensures
        stack_lookup(bind_model(frames, name, v), name) == Some(v),
{
}

/// Binding one name leaves every other name's lookup unchanged.
pub proof fn lemma_bind_preserves_others(
    frames: Seq<Map<Seq<char>, ValueModel>>,
    name: Seq<char>,
    other: Seq<char>,
    v: ValueModel,
)
    requires
        frames.len() >= 1,
        other != name,
    ensures
        stack_lookup(bind_model(frames, name, v), other) == stack_lookup(frames, other),
{
    let bound = bind_model(frames, name, v);
    assert(bound.drop_last() =~= frames.drop_last());
}

} // verus!
