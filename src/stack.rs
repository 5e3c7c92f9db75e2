use vstd::prelude::*;

verus! {

/// The byte `/` that starts every absolute path.
pub const SLASH: u8 = 47;

/// The byte that ends a line.
pub const NEWLINE: u8 = 10;

/// Why an operation on the directory stack failed.
#[derive(Debug, Clone, Copy, PartialEq, Eq, Structural)]
pub enum StackError {
    /// The path to push is not an existing directory (or cannot be stored).
    InvalidPath,
    /// There is nothing to pop.
    EmptyStack,
}

/// A path that may stand on the stack: absolute, and free of line breaks so
/// that one entry fits on one line of the storage record.
pub open spec fn is_entry(p: Seq<u8>) -> bool {
    &&& p.len() > 0
    &&& p[0] == SLASH
    &&& forall|i: int| 0 <= i < p.len() ==> #[trigger] p[i] != NEWLINE
}

/// Every element of `s` may stand on the stack.
pub open spec fn all_entries(s: Seq<Seq<u8>>) -> bool {
    forall|i: int| 0 <= i < s.len() ==> is_entry(#[trigger] s[i])
}

/// The bytes of an optional path.
pub open spec fn opt_bytes(o: Option<Vec<u8>>) -> Option<Seq<u8>> {
    match o {
        Some(v) => Some(v@),
        None => None,
    }
}

/// The stack and the reply after pushing `c` (the canonical form of the
/// requested path, or `None` when it named no directory) onto `s`.
pub open spec fn push_outcome(s: Seq<Seq<u8>>, c: Option<Seq<u8>>) -> (Seq<Seq<u8>>, Result<(), StackError>) {
    match c {
        Some(p) => if is_entry(p) {
            (s.push(p), Ok(()))
        } else {
            (s, Err(StackError::InvalidPath))
        },
        None => (s, Err(StackError::InvalidPath)),
    }
}

/// The stack and the reply after popping from `s`: the top entry, or
/// `EmptyStack` with `s` unchanged.
pub open spec fn pop_outcome(s: Seq<Seq<u8>>) -> (Seq<Seq<u8>>, Result<Seq<u8>, StackError>) {
    if s.len() == 0 {
        (s, Err(StackError::EmptyStack))
    } else {
        (s.drop_last(), Ok(s.last()))
    }
}

/// The stack after clearing `s`.
pub open spec fn clear_outcome(s: Seq<Seq<u8>>) -> Seq<Seq<u8>> {
    Seq::empty()
}

/// The stack after pushing each of `cs` in turn onto `s`.
pub open spec fn push_all(s: Seq<Seq<u8>>, cs: Seq<Seq<u8>>) -> Seq<Seq<u8>>
    decreases cs.len(),
{
    if cs.len() == 0 {
        s
    } else {
        push_outcome(push_all(s, cs.drop_last()), Some(cs.last())).0
    }
}

/// The bytes of each path.
pub open spec fn view_entries(v: Seq<Vec<u8>>) -> Seq<Seq<u8>> {
    v.map_values(|e: Vec<u8>| e@)
}

/// A LIFO stack of directories: the last element is the most recently pushed.
pub struct DirectoryStack {
    entries: Vec<Vec<u8>>,
}

impl View for DirectoryStack {
    type V = Seq<Seq<u8>>;

    closed spec fn view(&self) -> Seq<Seq<u8>> {
        view_entries(self.entries@)
    }
}

impl DirectoryStack {
    /// Every entry is an absolute path without line breaks.
    pub open spec fn wf(&self) -> bool {
        all_entries(self@)
    }

    /// An empty stack.
    pub fn new() -> (r: DirectoryStack)
        ensures
            r@ == Seq::<Seq<u8>>::empty(),
            r.wf(),
    {
        DirectoryStack { entries: Vec::new() }
    }

    /// A stack holding `entries`, bottom first, when each may stand on a stack.
    pub fn from_entries(entries: Vec<Vec<u8>>) -> (r: Option<DirectoryStack>)
        ensures
            r.is_some() == all_entries(view_entries(entries@)),
            r matches Some(s) ==> s@ == view_entries(entries@) && s.wf(),
    {
        let mut i: usize = 0;
        while i < entries.len()
            invariant
                0 <= i <= entries.len(),
                forall|j: int| 0 <= j < i ==> is_entry(#[trigger] view_entries(entries@)[j]),
            decreases entries.len() - i,
        {
            if !check_entry(entries[i].as_slice()) {
                assert(view_entries(entries@)[i as int] == entries@[i as int]@);
                return None;
            }
            i = i + 1;
        }
        Some(DirectoryStack { entries })
    }

    /// The number of entries.
    pub fn depth(&self) -> (r: usize)
        ensures
            r == self@.len(),
    {
        self.entries.len()
    }

    /// Pushes `canonical`, the canonical form of the requested path, or fails
    /// with `InvalidPath` (changing nothing) when the path named no directory
    /// (`None`) or its canonical form cannot stand on the stack.
    pub fn push_entry(&mut self, canonical: Option<Vec<u8>>) -> (r: Result<(), StackError>)
        requires
            old(self).wf(),
        ensures
            final(self).wf(),
            (final(self)@, r) == push_outcome(old(self)@, opt_bytes(canonical)),
            r is Ok <==> (canonical matches Some(c) && is_entry(c@)),
            r is Ok ==> final(self)@.last() == opt_bytes(canonical).unwrap(),
    {
        match canonical {
            Some(c) => {
                if check_entry(c.as_slice()) {
                    proof {
                        assert(view_entries(self.entries@.push(c)) =~= self@.push(c@));
                    }
                    self.entries.push(c);
                    Ok(())
                } else {
                    Err(StackError::InvalidPath)
                }
            },
            None => Err(StackError::InvalidPath),
        }
    }

    /// Removes and returns the top entry, or fails with `EmptyStack`
    /// (changing nothing) when there is none.
    pub fn pop_entry(&mut self) -> (r: Result<Vec<u8>, StackError>)
        requires
            old(self).wf(),
        ensures
            final(self).wf(),
            final(self)@ == pop_outcome(old(self)@).0,
            match r {
                Ok(p) => pop_outcome(old(self)@).1 == Ok::<Seq<u8>, StackError>(p@),
                Err(e) => pop_outcome(old(self)@).1 == Err::<Seq<u8>, StackError>(e),
            },
            r is Err <==> old(self)@.len() == 0,
    {
        match self.entries.pop() {
            Some(p) => {
                proof {
                    assert(view_entries(self.entries@) =~= old(self)@.drop_last());
                }
                Ok(p)
            },
            None => Err(StackError::EmptyStack),
        }
    }

    /// The top entry, without removing it.
    pub fn peek_entry(&self) -> (r: Result<Vec<u8>, StackError>)
        ensures
            match r {
                Ok(p) => self@.len() > 0 && p@ == self@.last(),
                Err(e) => self@.len() == 0 && e == StackError::EmptyStack,
            },
    {
        let n = self.entries.len();
        if n == 0 {
            Err(StackError::EmptyStack)
        } else {
            Ok(copy_bytes(self.entries[n - 1].as_slice()))
        }
    }

    /// The whole stack, bottom first (the newest entry last).
    pub fn get_stack(&self) -> (r: Vec<Vec<u8>>)
        ensures
            view_entries(r@) == self@,
    {
        let mut out: Vec<Vec<u8>> = Vec::new();
        let mut i: usize = 0;
        while i < self.entries.len()
            invariant
                0 <= i <= self.entries.len(),
                view_entries(out@) =~= self@.subrange(0, i as int),
            decreases self.entries.len() - i,
        {
            let e = copy_bytes(self.entries[i].as_slice());
            proof {
                assert(self@[i as int] == self.entries@[i as int]@);
                assert(e@ == self@[i as int]);
                assert(view_entries(out@.push(e)) =~= view_entries(out@).push(e@));
                assert(view_entries(out@.push(e)) =~= self@.subrange(0, i + 1));
            }
            out.push(e);
            i = i + 1;
        }
        proof {
            assert(self@.subrange(0, self.entries@.len() as int) =~= self@);
        }
        out
    }

    /// Empties the stack; succeeds whatever it held.
    pub fn clear_stack(&mut self) -> (r: Result<(), StackError>)
        ensures
            final(self).wf(),
            final(self)@ == clear_outcome(old(self)@),
            r is Ok,
    {
        self.entries = Vec::new();
        proof {
            assert(self@ =~= Seq::<Seq<u8>>::empty());
        }
        Ok(())
    }
}

/// Tests whether `p` may stand on the stack.
pub fn check_entry(p: &[u8]) -> (r: bool)
    ensures
        r == is_entry(p@),
{
    if p.len() == 0 || p[0] != SLASH {
        return false;
    }
    let mut i: usize = 0;
    while i < p.len()
        invariant
            0 <= i <= p.len(),
            forall|j: int| 0 <= j < i ==> #[trigger] p@[j] != NEWLINE,
        decreases p.len() - i,
    {
        if p[i] == NEWLINE {
            return false;
        }
        i = i + 1;
    }
    true
}

/// A fresh vector holding the bytes of `p`.
pub fn copy_bytes(p: &[u8]) -> (r: Vec<u8>)
    ensures
        r@ == p@,
{
    let mut out: Vec<u8> = Vec::new();
    let mut i: usize = 0;
    while i < p.len()
        invariant
            0 <= i <= p.len(),
            out@ =~= p@.subrange(0, i as int),
        decreases p.len() - i,
    {
        out.push(p[i]);
        i = i + 1;
    }
    proof {
        assert(p@.subrange(0, p@.len() as int) =~= p@);
    }
    out
}

/// Pushing a directory and then popping at once returns the canonical form of
/// that directory and leaves the stack as it was.
pub proof fn lemma_push_pop_round_trip(s: Seq<Seq<u8>>, c: Seq<u8>)
    requires
        is_entry(c),
    ensures
        push_outcome(s, Some(c)).1 is Ok,
        pop_outcome(push_outcome(s, Some(c)).0) == (s, Ok::<Seq<u8>, StackError>(c)),
{
    assert(s.push(c).drop_last() =~= s);
}

/// After `n` successful pushes onto an empty stack with no pops the stack holds
/// `n` entries, and after one pop it holds `n - 1`.
pub proof fn lemma_depth_accounting(cs: Seq<Seq<u8>>)
    requires
        all_entries(cs),
    ensures
        push_all(Seq::empty(), cs).len() == cs.len(),
        cs.len() > 0 ==> pop_outcome(push_all(Seq::empty(), cs)).0.len() == cs.len() - 1,
        cs.len() > 0 ==> pop_outcome(push_all(Seq::empty(), cs)).1 is Ok,
    decreases cs.len(),
{
    if cs.len() > 0 {
        let rest = cs.drop_last();
        assert(all_entries(rest)) by {
            assert forall|i: int| 0 <= i < rest.len() implies is_entry(#[trigger] rest[i]) by {
                assert(rest[i] == cs[i]);
            }
        }
        assert(is_entry(cs[cs.len() - 1]));
        lemma_depth_accounting(rest);
    }
}

/// Popping from an empty stack fails with `EmptyStack` and leaves it empty.
pub proof fn lemma_empty_pop(s: Seq<Seq<u8>>)
    requires
        s.len() == 0,
    ensures
        pop_outcome(s) == (s, Err::<Seq<u8>, StackError>(StackError::EmptyStack)),
{
}

/// Clearing always leaves an empty stack, and clearing twice is the same as
/// clearing once.
pub proof fn lemma_clear_idempotent(s: Seq<Seq<u8>>)
    ensures
        clear_outcome(s).len() == 0,
        clear_outcome(clear_outcome(s)) == clear_outcome(s),
{
}

/// A push of a path that names no directory, or that cannot stand on the
/// stack, fails with `InvalidPath` and leaves the stack unchanged.
pub proof fn lemma_invalid_push_unchanged(s: Seq<Seq<u8>>, c: Option<Seq<u8>>)
    requires
        !(c matches Some(p) && is_entry(p)),
    ensures
        push_outcome(s, c) == (s, Err::<(), StackError>(StackError::InvalidPath)),
{
}

/// Two pushes applied one after the other, in either order, both succeed and
/// both entries stand on the stack afterwards, above what was there, in the
/// order in which they were applied.
pub proof fn lemma_serialized_pushes_kept(s: Seq<Seq<u8>>, a: Seq<u8>, b: Seq<u8>)
    requires
        is_entry(a),
        is_entry(b),
    ensures
        push_outcome(s, Some(a)).1 is Ok,
        push_outcome(push_outcome(s, Some(a)).0, Some(b)).1 is Ok,
        push_outcome(push_outcome(s, Some(a)).0, Some(b)).0 == s + seq![a, b],
        push_outcome(push_outcome(s, Some(b)).0, Some(a)).0 == s + seq![b, a],
{
    assert(s.push(a).push(b) =~= s + seq![a, b]);
    assert(s.push(b).push(a) =~= s + seq![b, a]);
}

} // verus!
