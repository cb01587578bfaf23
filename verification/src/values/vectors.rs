//! Vectors: growable sequences of value words, kept in a vector of the
//! `allocator_api2` crate.

use vstd::prelude::*;
use super::Val;

verus! {

/// The most items a vector holds on a machine with wide words: its length
/// must fit in an integer word.
pub const MAX_VECTOR_LEN: usize = 0x7FFF_FFFE;

/// The most items a vector holds: no more than `MAX_VECTOR_LEN`, and so few
/// that their bytes can be counted in an `isize` with room to spare.
pub open spec fn spec_vector_limit() -> usize {
    if (isize::MAX as usize) / 16 < MAX_VECTOR_LEN {
        (isize::MAX as usize) / 16
    } else {
        MAX_VECTOR_LEN
    }
}

pub fn vector_limit() -> (n: usize)
    ensures
        n == spec_vector_limit(),
        512 < n <= MAX_VECTOR_LEN,
{
    let by_bytes = (isize::MAX as usize) / 16;
    if by_bytes < MAX_VECTOR_LEN {
        by_bytes
    } else {
        MAX_VECTOR_LEN
    }
}

/// A vector of machine words of the `allocator_api2` crate. Verus does not
/// look inside; what it holds is named by `word_vec_items`.
#[verifier::external_body]
pub struct WordVec {
    inner: allocator_api2::vec::Vec<u64>,
}

/// The words that a `WordVec` holds, in order.
pub uninterp spec fn word_vec_items(v: WordVec) -> Seq<u64>;

/// Calls `allocator_api2::vec::Vec::new`: the new vector holds nothing.
#[verifier::external_body]
pub(crate) fn word_vec_new() -> (v: WordVec)
    ensures
        word_vec_items(v) == Seq::<u64>::empty(),
{
    WordVec { inner: allocator_api2::vec::Vec::new() }
}

/// Calls `allocator_api2::vec::Vec::len`: the number of words held.
#[verifier::external_body]
pub(crate) fn word_vec_len(v: &WordVec) -> (n: usize)
    ensures
        n == word_vec_items(*v).len(),
{
    v.inner.len()
}

/// Calls `allocator_api2::vec::Vec::as_slice`: the words held, as a slice.
#[verifier::external_body]
pub(crate) fn word_vec_as_slice(v: &WordVec) -> (s: &[u64])
    ensures
        s@ == word_vec_items(*v),
{
    v.inner.as_slice()
}

/// Calls `allocator_api2::vec::Vec::as_mut_slice`: the words held, as a
/// slice through which they can be overwritten in place.
#[verifier::external_body]
pub(crate) fn word_vec_as_mut_slice(v: &mut WordVec) -> (s: &mut [u64])
    ensures
        s@ == word_vec_items(*old(v)),
        final(s)@ == word_vec_items(*final(v)),
{
    v.inner.as_mut_slice()
}

/// Calls `allocator_api2::vec::Vec::push`: the word is added at the end.
/// The call panics when the vector would outgrow `isize::MAX` bytes, so the
/// length is kept far below that.
#[verifier::external_body]
pub(crate) fn word_vec_push(v: &mut WordVec, w: u64)
    requires
        word_vec_items(*old(v)).len() < spec_vector_limit(),
    ensures
        word_vec_items(*final(v)) == word_vec_items(*old(v)).push(w),
{
    v.inner.push(w)
}

/// Calls `allocator_api2::vec::Vec::pop`: the last word is taken off and
/// returned, or none if there is no word.
#[verifier::external_body]
pub(crate) fn word_vec_pop(v: &mut WordVec) -> (r: Option<u64>)
    ensures
        word_vec_items(*old(v)).len() == 0 ==> r is None && word_vec_items(*final(v))
            == word_vec_items(*old(v)),
        word_vec_items(*old(v)).len() > 0 ==> r == Some(word_vec_items(*old(v)).last())
            && word_vec_items(*final(v)) == word_vec_items(*old(v)).drop_last(),
{
    v.inner.pop()
}

/// The values that a run of words encodes.
pub open spec fn vals_of(words: Seq<u64>) -> Seq<Val> {
    Seq::new(words.len(), |i: int| Val(words[i]))
}

/// A growable sequence of values.
pub struct Vector(WordVec);

impl View for Vector {
    type V = Seq<Val>;

    closed spec fn view(&self) -> Seq<Val> {
        vals_of(word_vec_items(self.0))
    }
}

/// The vector after `v` was pushed.
pub open spec fn push_spec(s: Seq<Val>, v: Val) -> Seq<Val> {
    s.push(v)
}

/// The vector after a pop.
pub open spec fn pop_spec(s: Seq<Val>) -> Seq<Val> {
    if s.len() > 0 {
        s.drop_last()
    } else {
        s
    }
}

/// What a pop returns.
pub open spec fn popped(s: Seq<Val>) -> Option<Val> {
    if s.len() > 0 {
        Some(s.last())
    } else {
        None
    }
}

/// The vector after item `i` was set to `v`; unchanged if there is no item `i`.
pub open spec fn set_spec(s: Seq<Val>, i: int, v: Val) -> Seq<Val> {
    if 0 <= i < s.len() {
        s.update(i, v)
    } else {
        s
    }
}

/// Item `i`, if there is one.
pub open spec fn get_spec(s: Seq<Val>, i: int) -> Option<Val> {
    if 0 <= i < s.len() {
        Some(s[i])
    } else {
        None
    }
}

impl Vector {
    /// The invariant of a vector: its length fits in an integer word.
    pub open spec fn wf(&self) -> bool {
        self@.len() <= spec_vector_limit()
    }

    /// The empty vector.
    pub fn new() -> (v: Vector)
        ensures
            v@ == Seq::<Val>::empty(),
            v.wf(),
    {
        let v = Vector(word_vec_new());
        assert(v@ =~= Seq::<Val>::empty());
        v
    }

    /// Item `i`, or none past the end.
    pub fn get(&self, i: usize) -> (r: Option<Val>)
        ensures
            r == get_spec(self@, i as int),
    {
        let s = word_vec_as_slice(&self.0);
        if i < s.len() {
            Some(Val(s[i]))
        } else {
            None
        }
    }

    /// Overwrites item `i`; none, and no change, past the end.
    pub fn set(&mut self, i: usize, v: Val) -> (r: Option<()>)
        ensures
            final(self)@ == set_spec(old(self)@, i as int, v),
            r is Some <==> i < old(self)@.len(),
    {
        let s = word_vec_as_mut_slice(&mut self.0);
        if i < s.len() {
            s[i] = v.0;
            assert(self@ =~= old(self)@.update(i as int, v));
            Some(())
        } else {
            assert(self@ =~= old(self)@);
            None
        }
    }

    /// Adds `v` at the end.
    pub fn push(&mut self, v: Val)
        requires
            old(self)@.len() < spec_vector_limit(),
        ensures
            final(self)@ == push_spec(old(self)@, v),
            final(self).wf(),
    {
        word_vec_push(&mut self.0, v.0);
        assert(self@ =~= old(self)@.push(v));
    }

    /// Takes the last item off; none if the vector is empty.
    pub fn pop(&mut self) -> (r: Option<Val>)
        ensures
            final(self)@ == pop_spec(old(self)@),
            r == popped(old(self)@),
    {
        match word_vec_pop(&mut self.0) {
            Some(w) => {
                assert(self@ =~= old(self)@.drop_last());
                Some(Val(w))
            },
            None => None,
        }
    }

    /// The number of items, as an integer word.
    pub fn len(&self) -> (n: Val)
        requires
            self.wf(),
        ensures
            n == Val(crate::values::int_word(self@.len() as i32)),
            n.spec_is_int(),
            n.int_value() == self@.len(),
    {
        let n = word_vec_len(&self.0);
        Val::from_int(n as i32)
    }

    /// The number of items.
    pub fn count(&self) -> (n: usize)
        ensures
            n == self@.len(),
    {
        word_vec_len(&self.0)
    }

    /// The items in order.
    pub fn iter(&self) -> (items: Vec<Val>)
        ensures
            items@ == self@,
    {
        let s = word_vec_as_slice(&self.0);
        let mut items: Vec<Val> = Vec::new();
        let mut i: usize = 0;
        while i < s.len()
            invariant
                i <= s.len(),
                s@ == word_vec_items(self.0),
                items@ == self@.take(i as int),
            decreases s.len() - i,
        {
            items.push(Val(s[i]));
            assert(items@ =~= self@.take(i + 1));
            i += 1;
        }
        assert(self@.take(s.len() as int) =~= self@);
        items
    }
}

/// A pop after a push returns what was pushed and leaves the vector as it
/// was before the push.
pub proof fn lemma_push_pop(s: Seq<Val>, v: Val)
    ensures
        popped(push_spec(s, v)) == Some(v),
        pop_spec(push_spec(s, v)) == s,
        pop_spec(push_spec(s, v)).len() == s.len(),
{
    assert(s.push(v).drop_last() =~= s);
}

/// A get after a set of the same item returns what was set, and the set
/// leaves the length and the other items alone.
pub proof fn lemma_set_get(s: Seq<Val>, i: int, j: int, v: Val)
    requires
        0 <= i < s.len(),
    ensures
        get_spec(set_spec(s, i, v), i) == Some(v),
        set_spec(s, i, v).len() == s.len(),
        j != i ==> get_spec(set_spec(s, i, v), j) == get_spec(s, j),
{
}

/// Past the end there is nothing to get, to set or to pop.
pub proof fn lemma_out_of_bounds(s: Seq<Val>, i: int, v: Val)
    requires
        i >= s.len(),
    ensures
        get_spec(s, i) is None,
        set_spec(s, i, v) == s,
        s.len() == 0 ==> popped(s) is None && pop_spec(s) == s,
{
}

} // verus!
