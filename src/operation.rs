use vstd::prelude::*;
use crate::record::{
    decode_record, encode_record, encode_spec, lemma_encode_injective, lemma_encode_well_formed,
    well_formed_record,
};
use crate::stack::{
    all_entries, push_all, DirectoryStack, clear_outcome, opt_bytes, pop_outcome, push_outcome, view_entries, StackError,
};

verus! {

/// One operation on a session's stack, performed in one load, change, store
/// cycle while the session's lock is held.
pub enum StackOperation {
    /// Push the canonical form of the requested path (`None` when the path
    /// named no existing directory).
    Push(Option<Vec<u8>>),
    /// Remove and return the top entry.
    Pop,
    /// Return the top entry without removing it.
    Peek,
    /// Return every entry, bottom first.
    List,
    /// Remove every entry.
    Clear,
}

/// What a successful operation hands back.
pub enum Reply {
    Pushed,
    Popped(Vec<u8>),
    Peeked(Vec<u8>),
    Listed(Vec<Vec<u8>>),
    Cleared,
}

/// Why an operation failed.
#[derive(Debug, Clone, Copy, PartialEq, Eq, Structural)]
pub enum OperationError {
    /// The stored record exists but could not be read.
    Corrupt,
    /// The path to push is not an existing directory.
    InvalidPath,
    /// There is nothing to pop or peek.
    EmptyStack,
}

/// The result of one operation: the record to store in place of the old one
/// (`None`: leave the store untouched), and the reply.
pub struct Outcome {
    pub write: Option<Vec<u8>>,
    pub reply: Result<Reply, OperationError>,
}

/// The bytes of a record, if there is one.
pub open spec fn opt_record(r: Option<&[u8]>) -> Option<Seq<u8>> {
    match r {
        Some(b) => Some(b@),
        None => None,
    }
}

/// The stack that a record stores: empty when there is no record.
pub open spec fn stored_stack(record: Option<Seq<u8>>) -> Seq<Seq<u8>> {
    match record {
        None => Seq::empty(),
        Some(b) => choose|s: Seq<Seq<u8>>| all_entries(s) && encode_spec(s) == b,
    }
}

/// The record can be read: it is absent or stores some stack.
pub open spec fn readable(record: Option<Seq<u8>>) -> bool {
    match record {
        None => true,
        Some(b) => exists|s: Seq<Seq<u8>>| all_entries(s) && #[trigger] encode_spec(s) == b,
    }
}

/// `w` stores the record `b`.
pub open spec fn writes(w: Option<Vec<u8>>, b: Seq<u8>) -> bool {
    w matches Some(x) && x@ == b
}

/// The operation error for a stack error.
pub open spec fn stack_error(e: StackError) -> OperationError {
    match e {
        StackError::InvalidPath => OperationError::InvalidPath,
        StackError::EmptyStack => OperationError::EmptyStack,
    }
}

/// Performs `op` on the stack stored in `record` (`None`: no record yet).
/// Clear always succeeds and stores the empty stack, so it also resets a
/// record that cannot be read; any other operation on such a record fails
/// with `Corrupt`. A failed operation stores nothing; a successful push or
/// pop stores the new stack.
pub fn run_operation(record: Option<&[u8]>, op: StackOperation) -> (r: Outcome)
    ensures
        op is Clear ==> (r.reply matches Ok(Reply::Cleared))
            && writes(r.write, encode_spec(Seq::<Seq<u8>>::empty())),
        !(op is Clear) && !readable(opt_record(record)) ==> r.write is None && r.reply == Err::<Reply, OperationError>(OperationError::Corrupt),
        readable(opt_record(record)) ==> {
            let s = stored_stack(opt_record(record));
            match op {
                StackOperation::Push(c) => {
                    let (s2, res) = push_outcome(s, opt_bytes(c));
                    match res {
                        Ok(_) => (r.reply matches Ok(Reply::Pushed)) && writes(r.write, encode_spec(s2)),
                        Err(e) => r.write is None && r.reply == Err::<Reply, OperationError>(stack_error(e)),
                    }
                },
                StackOperation::Pop => match pop_outcome(s).1 {
                    Ok(p) => (r.reply matches Ok(Reply::Popped(q)) && q@ == p)
                        && writes(r.write, encode_spec(pop_outcome(s).0)),
                    Err(e) => r.write is None && r.reply == Err::<Reply, OperationError>(stack_error(e)),
                },
                StackOperation::Peek => r.write is None && if s.len() == 0 {
                    r.reply == Err::<Reply, OperationError>(OperationError::EmptyStack)
                } else {
                    r.reply matches Ok(Reply::Peeked(q)) && q@ == s.last()
                },
                StackOperation::List => r.write is None
                    && (r.reply matches Ok(Reply::Listed(v)) && view_entries(v@) == s),
                StackOperation::Clear => (r.reply matches Ok(Reply::Cleared))
                    && writes(r.write, encode_spec(clear_outcome(s))),
            }
        },
{
    if let StackOperation::Clear = op {
        let mut empty = DirectoryStack::new();
        let _ = empty.clear_stack();
        return Outcome { write: Some(encode_record(&empty)), reply: Ok(Reply::Cleared) };
    }
    let mut stack = match decode_record(record) {
        Ok(s) => s,
        Err(_) => {
            proof {
                if let Some(b) = record {
                    assert forall|s: Seq<Seq<u8>>| all_entries(s) implies #[trigger] encode_spec(s) != b@ by {
                        lemma_encode_well_formed(s);
                    }
                }
            }
            return Outcome { write: None, reply: Err(OperationError::Corrupt) };
        },
    };
    proof {
        if let Some(b) = record {
            let s = stored_stack(opt_record(record));
            assert(all_entries(stack@) && encode_spec(stack@) == b@);
            assert(all_entries(s) && encode_spec(s) == b@);
            lemma_encode_injective(s, stack@);
        } else {
            assert(stack@ =~= Seq::<Seq<u8>>::empty());
        }
        assert(stack@ == stored_stack(opt_record(record)));
    }
    match op {
        StackOperation::Push(c) => match stack.push_entry(c) {
            Ok(()) => Outcome { write: Some(encode_record(&stack)), reply: Ok(Reply::Pushed) },
            Err(e) => Outcome { write: None, reply: Err(map_stack_error(e)) },
        },
        StackOperation::Pop => match stack.pop_entry() {
            Ok(p) => Outcome { write: Some(encode_record(&stack)), reply: Ok(Reply::Popped(p)) },
            Err(e) => Outcome { write: None, reply: Err(map_stack_error(e)) },
        },
        StackOperation::Peek => match stack.peek_entry() {
            Ok(p) => Outcome { write: None, reply: Ok(Reply::Peeked(p)) },
            Err(e) => Outcome { write: None, reply: Err(map_stack_error(e)) },
        },
        StackOperation::List => Outcome { write: None, reply: Ok(Reply::Listed(stack.get_stack())) },
        StackOperation::Clear => {
            let _ = stack.clear_stack();
            Outcome { write: Some(encode_record(&stack)), reply: Ok(Reply::Cleared) }
        },
    }
}

/// The operation error for a stack error.
pub fn map_stack_error(e: StackError) -> (r: OperationError)
    ensures
        r == stack_error(e),
{
    match e {
        StackError::InvalidPath => OperationError::InvalidPath,
        StackError::EmptyStack => OperationError::EmptyStack,
    }
}

/// Storing a stack and reading the record back gives that stack again.
pub proof fn lemma_record_round_trip(s: Seq<Seq<u8>>)
    requires
        all_entries(s),
    ensures
        readable(Some(encode_spec(s))),
        well_formed_record(encode_spec(s)),
        stored_stack(Some(encode_spec(s))) == s,
{
    lemma_encode_well_formed(s);
    let t = stored_stack(Some(encode_spec(s)));
    assert(all_entries(t) && encode_spec(t) == encode_spec(s));
    lemma_encode_injective(t, s);
}

/// The record stored after pushing each of `cs` in turn, one operation per
/// invocation, starting from `record`: each step stores what `run_operation`
/// stores for a push.
pub open spec fn record_after_pushes(record: Option<Seq<u8>>, cs: Seq<Seq<u8>>) -> Option<Seq<u8>>
    decreases cs.len(),
{
    if cs.len() == 0 {
        record
    } else {
        let prev = stored_stack(record_after_pushes(record, cs.drop_last()));
        Some(encode_spec(push_outcome(prev, Some(cs.last())).0))
    }
}

/// Pushing `cs` one invocation at a time through the stored record gives the
/// stack that pushing them in memory gives: what was stored, then `cs` in the
/// order of the pushes. In particular `n` pushes onto a session with no record
/// leave `n` entries, and two pushes, in whichever order they were applied,
/// both stand on the stack.
pub proof fn lemma_pushes_through_record(record: Option<Seq<u8>>, cs: Seq<Seq<u8>>)
    requires
        readable(record),
        all_entries(cs),
    ensures
        readable(record_after_pushes(record, cs)),
        stored_stack(record_after_pushes(record, cs)) == stored_stack(record) + cs,
        stored_stack(record_after_pushes(record, cs)) == push_all(stored_stack(record), cs),
    decreases cs.len(),
{
    lemma_stored_stack_valid(record);
    if cs.len() == 0 {
        assert(stored_stack(record) + cs =~= stored_stack(record));
    } else {
        let rest = cs.drop_last();
        assert(all_entries(rest)) by {
            assert forall|i: int| 0 <= i < rest.len() implies crate::stack::is_entry(#[trigger] rest[i]) by {
                assert(rest[i] == cs[i]);
            }
        }
        assert(crate::stack::is_entry(cs[cs.len() - 1]));
        lemma_pushes_through_record(record, rest);
        let prev = stored_stack(record_after_pushes(record, rest));
        lemma_stored_stack_valid(record_after_pushes(record, rest));
        let next = prev.push(cs.last());
        assert(all_entries(next)) by {
            assert forall|i: int| 0 <= i < next.len() implies crate::stack::is_entry(#[trigger] next[i]) by {
                if i < prev.len() {
                    assert(next[i] == prev[i]);
                }
            }
        }
        lemma_record_round_trip(next);
        assert(stored_stack(record) + cs =~= (stored_stack(record) + rest).push(cs.last()));
    }
}

/// After `n > 0` pushes onto a session with no record, a pop through the
/// stored record returns the last pushed entry and leaves `n - 1` entries.
pub proof fn lemma_pop_after_pushes(cs: Seq<Seq<u8>>)
    requires
        all_entries(cs),
        cs.len() > 0,
    ensures
        pop_outcome(stored_stack(record_after_pushes(None, cs))).1 == Ok::<Seq<u8>, StackError>(cs.last()),
        pop_outcome(stored_stack(record_after_pushes(None, cs))).0.len() == cs.len() - 1,
{
    lemma_pushes_through_record(None, cs);
    assert(stored_stack(None) + cs =~= cs);
}

/// What a readable record stores may stand on a stack.
pub proof fn lemma_stored_stack_valid(record: Option<Seq<u8>>)
    requires
        readable(record),
    ensures
        all_entries(stored_stack(record)),
{
}

} // verus!
