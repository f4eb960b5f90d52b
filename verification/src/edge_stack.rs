//! A small stack of edge indices that stays on the call stack while it is
//! short.
use smallvec::SmallVec;
use vstd::prelude::*;

verus! {

/// A stack of edge indices, kept in a `SmallVec` with room for sixteen
/// indices before it allocates.
#[verifier::external_body]
pub struct EdgeStack {
    items: SmallVec<[usize; 16]>,
}

/// The indices that a stack holds, the bottom first.
pub uninterp spec fn stack_items(s: EdgeStack) -> Seq<usize>;

/// `SmallVec::new`: the new vector holds nothing.
#[verifier::external_body]
pub(crate) fn stack_new() -> (s: EdgeStack)
    ensures
        stack_items(s) == Seq::<usize>::empty(),
{
    EdgeStack { items: SmallVec::new() }
}

/// `SmallVec::len`: the number of items held.
#[verifier::external_body]
pub(crate) fn stack_len(s: &EdgeStack) -> (n: usize)
    ensures
        n == stack_items(*s).len(),
{
    s.items.len()
}

/// `SmallVec::push`: the item is appended behind all others. The call panics
/// where the size in bytes of the next larger capacity does not fit, which
/// the precondition leaves out.
#[verifier::external_body]
pub(crate) fn stack_push(s: &mut EdgeStack, value: usize)
    requires
        stack_items(*old(s)).len() < usize::MAX / 64,
    ensures
        stack_items(*final(s)) == stack_items(*old(s)).push(value),
{
    s.items.push(value)
}

/// `SmallVec::pop`: the last item is taken off and returned, or `None` where
/// there is none.
#[verifier::external_body]
pub(crate) fn stack_pop(s: &mut EdgeStack) -> (r: Option<usize>)
    ensures
        stack_items(*old(s)).len() == 0 ==> r.is_none() && stack_items(*final(s)) == stack_items(
            *old(s),
        ),
        stack_items(*old(s)).len() > 0 ==> r == Some(stack_items(*old(s)).last()) && stack_items(
            *final(s),
        ) == stack_items(*old(s)).drop_last(),
{
    s.items.pop()
}

/// `SmallVec::insert`: the item is put at `index`, and the items from there
/// on move back by one. The call panics where `index` is beyond the length or
/// the size in bytes of the next larger capacity does not fit, which the
/// precondition leaves out.
#[verifier::external_body]
pub(crate) fn stack_insert(s: &mut EdgeStack, index: usize, value: usize)
    requires
        index <= stack_items(*old(s)).len(),
        stack_items(*old(s)).len() < usize::MAX / 64,
    ensures
        stack_items(*final(s)) == stack_items(*old(s)).insert(index as int, value),
{
    s.items.insert(index, value)
}

/// Indexing a `SmallVec`: the item at `index`. The call panics where `index`
/// is not below the length, which the precondition leaves out.
#[verifier::external_body]
pub(crate) fn stack_get(s: &EdgeStack, index: usize) -> (r: usize)
    requires
        index < stack_items(*s).len(),
    ensures
        r == stack_items(*s)[index as int],
{
    s.items[index]
}


impl View for EdgeStack {
    type V = Seq<usize>;

    open spec fn view(&self) -> Seq<usize> {
        stack_items(*self)
    }
}

impl EdgeStack {
    /// The empty stack.
    pub fn new() -> (s: Self)
        ensures
            s@ == Seq::<usize>::empty(),
    {
        stack_new()
    }

    /// The number of indices on the stack.
    pub fn len(&self) -> (n: usize)
        ensures
            n == self@.len(),
    {
        stack_len(self)
    }

    /// Puts `value` on top of the stack, unless the stack holds so many
    /// indices that a larger one may not fit into memory.
    pub fn push(&mut self, value: usize) -> (pushed: bool)
        ensures
            pushed == (old(self)@.len() < usize::MAX / 64),
            pushed ==> final(self)@ == old(self)@.push(value),
            !pushed ==> final(self)@ == old(self)@,
    {
        if stack_len(self) < usize::MAX / 64 {
            stack_push(self, value);
            true
        } else {
            false
        }
    }

    /// Takes the top off the stack.
    pub fn pop(&mut self) -> (r: Option<usize>)
        ensures
            old(self)@.len() == 0 ==> r.is_none() && final(self)@ == old(self)@,
            old(self)@.len() > 0 ==> r == Some(old(self)@.last()) && final(self)@ == old(self)@.drop_last(),
    {
        stack_pop(self)
    }

    /// The index at the position `index`, counted from the bottom, or `None`
    /// where the stack is not that high.
    pub fn get(&self, index: usize) -> (r: Option<usize>)
        ensures
            r == (if index < self@.len() {
                Some(self@[index as int])
            } else {
                None
            }),
    {
        if index < stack_len(self) {
            Some(stack_get(self, index))
        } else {
            None
        }
    }

    /// The indices on the stack, the bottom first.
    pub fn to_vec(&self) -> (v: Vec<usize>)
        ensures
            v@ == self@,
    {
        let n: usize = stack_len(self);
        let mut v: Vec<usize> = Vec::new();
        let mut i: usize = 0;
        while i < n
            invariant
                n == self@.len(),
                0 <= i <= n,
                v@.len() == i,
                forall|j: int| 0 <= j < i ==> #[trigger] v@[j] == self@[j],
            decreases n - i,
        {
            v.push(stack_get(self, i));
            i = i + 1;
        }
        proof {
            assert(v@ =~= self@);
        }
        v
    }
}

} // verus!
