use vstd::prelude::*;
use std::collections::HashSet;

verus! {

broadcast use vstd::std_specs::hash::group_hash_axioms;

/// Hands out `usize` tokens in increasing order, from 0 up to `usize::MAX`.
///
/// Freed tokens are recorded but, by design, not handed out again: `get`
/// keeps counting upwards until every `usize` has been handed out once.
#[derive(Debug)]
pub struct UsizeTokenProvider {
    reusable_tokens: HashSet<usize>,
    next: usize,
    exhausted: bool,
}

impl UsizeTokenProvider {
    /// The next token `get` hands out, if not exhausted.
    pub closed spec fn spec_next(&self) -> usize {
        self.next
    }

    /// Every token has been handed out.
    pub closed spec fn spec_exhausted(&self) -> bool {
        self.exhausted
    }

    /// The tokens freed so far.
    pub closed spec fn spec_freed(&self) -> Set<usize> {
        self.reusable_tokens@
    }

    /// # Returns
    /// A provider whose first token is 0.
    pub fn init() -> (p: Self)
        ensures
            p.spec_next() == 0,
            !p.spec_exhausted(),
            p.spec_freed() == Set::<usize>::empty(),
    {
        UsizeTokenProvider { reusable_tokens: HashSet::new(), next: 0, exhausted: false }
    }

    /// # Returns
    /// * `Some`: The next token; the one after it comes next time.
    /// * `None`: If every token has been handed out.
    pub fn get(&mut self) -> (r: Option<usize>)
        ensures
            old(self).spec_exhausted() ==> r is None && *final(self) == *old(self),
            !old(self).spec_exhausted() ==> r == Some(old(self).spec_next()),
            !old(self).spec_exhausted() && old(self).spec_next() < usize::MAX ==>
                final(self).spec_next() == old(self).spec_next() + 1 && !final(self).spec_exhausted(),
            !old(self).spec_exhausted() && old(self).spec_next() == usize::MAX ==> final(self).spec_exhausted(),
            final(self).spec_freed() == old(self).spec_freed(),
    {
        if self.exhausted {
            return None;
        }
        let token = self.next;
        if self.next == usize::MAX {
            self.exhausted = true;
        } else {
            self.next = self.next + 1;
        }
        Some(token)
    }

    /// # Returns
    /// `true` if `get` would hand out another token.
    pub fn has_next(&mut self) -> (b: bool)
        ensures
            b == !old(self).spec_exhausted(),
            *final(self) == *old(self),
    {
        !self.exhausted
    }

    /// Records `token` as freed.
    pub fn free(&mut self, token: usize)
        ensures
            final(self).spec_freed() == old(self).spec_freed().insert(token),
            final(self).spec_next() == old(self).spec_next(),
            final(self).spec_exhausted() == old(self).spec_exhausted(),
    {
        self.reusable_tokens.insert(token);
    }
}

} // verus!
