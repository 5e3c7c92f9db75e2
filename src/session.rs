use vstd::prelude::*;

verus! {

/// The identity of one terminal session: the process id of the shell that
/// owns it, which every invocation launched from that shell is handed.
#[derive(Debug, Clone, Copy, PartialEq, Eq, Structural)]
pub struct SessionId {
    pub pid: u32,
}

/// Why no session could be determined.
#[derive(Debug, Clone, Copy, PartialEq, Eq, Structural)]
pub enum SessionResolutionError {
    /// No process id was handed over, or it is 0, which names no process.
    NoProcessId,
}

/// Maps the process id handed over by the calling shell to its session. There
/// is no fallback to a shared stack: without a usable id resolution fails.
pub fn resolve(pid_hint: Option<u32>) -> (r: Result<SessionId, SessionResolutionError>)
    ensures
        match pid_hint {
            Some(p) if p != 0 => r == Ok::<SessionId, SessionResolutionError>(SessionId { pid: p }),
            _ => r == Err::<SessionId, SessionResolutionError>(SessionResolutionError::NoProcessId),
        },
{
    match pid_hint {
        Some(p) => if p != 0 {
            Ok(SessionId { pid: p })
        } else {
            Err(SessionResolutionError::NoProcessId)
        },
        None => Err(SessionResolutionError::NoProcessId),
    }
}

/// The ASCII digit for `d < 10`.
pub open spec fn digit(d: nat) -> u8 {
    (48 + d) as u8
}

/// The decimal digits of `n`, most significant first, without leading zeros.
pub open spec fn decimal(n: nat) -> Seq<u8>
    decreases n,
{
    if n < 10 {
        seq![digit(n)]
    } else {
        decimal(n / 10).push(digit(n % 10))
    }
}

/// `stack-` in ASCII.
pub open spec fn record_prefix() -> Seq<u8> {
    seq![115u8, 116u8, 97u8, 99u8, 107u8, 45u8]
}

/// The name of the file that stores the stack of `id`.
pub open spec fn record_name(id: SessionId) -> Seq<u8> {
    record_prefix() + decimal(id.pid as nat)
}

/// Appends the decimal digits of `n` to `out`.
pub fn push_decimal(out: &mut Vec<u8>, n: u64)
    ensures
        final(out)@ == old(out)@ + decimal(n as nat),
    decreases n,
{
    if n < 10 {
        out.push(48u8 + n as u8);
        proof {
            assert(final(out)@ =~= old(out)@ + decimal(n as nat));
        }
    } else {
        push_decimal(out, n / 10);
        out.push(48u8 + (n % 10) as u8);
        proof {
            assert(final(out)@ =~= old(out)@ + decimal(n as nat));
        }
    }
}

/// The file name under which the stack of session `id` is stored.
pub fn record_file_name(id: SessionId) -> (r: Vec<u8>)
    ensures
        r@ == record_name(id),
{
    let mut out: Vec<u8> = Vec::new();
    out.push(115u8);
    out.push(116u8);
    out.push(97u8);
    out.push(99u8);
    out.push(107u8);
    out.push(45u8);
    push_decimal(&mut out, id.pid as u64);
    proof {
        assert(out@ =~= record_name(id));
    }
    out
}

proof fn lemma_decimal_short(n: nat)
    ensures
        decimal(n).len() >= 1,
        decimal(n).len() == 1 <==> n < 10,
    decreases n,
{
    if n >= 10 {
        lemma_decimal_short(n / 10);
    }
}

/// Distinct numbers have distinct decimal forms.
pub proof fn lemma_decimal_injective(a: nat, b: nat)
    requires
        decimal(a) == decimal(b),
    ensures
        a == b,
    decreases a,
{
    lemma_decimal_short(a);
    lemma_decimal_short(b);
    if a >= 10 && b >= 10 {
        assert(decimal(a).last() == digit(a % 10));
        assert(decimal(b).last() == digit(b % 10));
        assert(decimal(a).drop_last() =~= decimal(a / 10));
        assert(decimal(b).drop_last() =~= decimal(b / 10));
        lemma_decimal_injective(a / 10, b / 10);
        assert(a % 10 == b % 10);
    } else if a < 10 && b < 10 {
        assert(seq![digit(a)][0] == digit(a));
        assert(seq![digit(b)][0] == digit(b));
        assert(decimal(a)[0] == decimal(b)[0]);
    } else {
        assert(decimal(a).len() == decimal(b).len());
    }
}

/// Distinct sessions store their stacks under distinct names, so what one
/// session pushes is never seen by another.
pub proof fn lemma_sessions_isolated(a: SessionId, b: SessionId)
    requires
        a != b,
    ensures
        record_name(a) != record_name(b),
{
    if record_name(a) == record_name(b) {
        assert(decimal(a.pid as nat) =~= record_name(a).subrange(6, record_name(a).len() as int));
        assert(decimal(b.pid as nat) =~= record_name(b).subrange(6, record_name(b).len() as int));
        lemma_decimal_injective(a.pid as nat, b.pid as nat);
    }
}

/// The stored records of every session, seen as a map from file name to
/// contents. Storing a record for session `a` leaves the record of every other
/// session `b` as it was: pushes made under `a` are never seen under `b`.
pub proof fn lemma_store_isolated(files: Map<Seq<u8>, Seq<u8>>, a: SessionId, b: SessionId, w: Seq<u8>)
    requires
        a != b,
    ensures
        files.insert(record_name(a), w).contains_key(record_name(b)) == files.contains_key(record_name(b)),
        files.insert(record_name(a), w).contains_key(record_name(b)) ==>
            files.insert(record_name(a), w)[record_name(b)] == files[record_name(b)],
{
    lemma_sessions_isolated(a, b);
}

} // verus!
