use vstd::prelude::*;
use crate::stack::{all_entries, is_entry, view_entries, DirectoryStack, NEWLINE, SLASH};

verus! {

/// The stored form of a stack: each entry, bottom first, followed by a line
/// break.
pub open spec fn encode_spec(s: Seq<Seq<u8>>) -> Seq<u8>
    decreases s.len(),
{
    if s.len() == 0 {
        Seq::empty()
    } else {
        encode_spec(s.drop_last()) + s.last() + seq![NEWLINE]
    }
}

/// Position `j` of `b` starts a line.
pub open spec fn line_start(b: Seq<u8>, j: int) -> bool {
    j == 0 || b[j - 1] == NEWLINE
}

/// `b` is a well-formed record: empty or ending with a line break, and every
/// line starts with `/` (so no line is empty).
pub open spec fn well_formed_record(b: Seq<u8>) -> bool {
    &&& (b.len() == 0 || b.last() == NEWLINE)
    &&& forall|j: int| 0 <= j < b.len() && #[trigger] line_start(b, j) ==> b[j] == SLASH
}

/// Why a stored record could not be read.
#[derive(Debug, Clone, Copy, PartialEq, Eq, Structural)]
pub enum RecordError {
    /// The record exists but is not a well-formed list of paths.
    Corrupt,
}

proof fn lemma_encode_last(s: Seq<Seq<u8>>)
    requires
        s.len() > 0,
    ensures
        encode_spec(s).len() > 0,
        encode_spec(s).last() == NEWLINE,
{
}

/// Distinct stacks are stored as distinct records.
pub proof fn lemma_encode_injective(s: Seq<Seq<u8>>, t: Seq<Seq<u8>>)
    requires
        all_entries(s),
        all_entries(t),
        encode_spec(s) == encode_spec(t),
    ensures
        s == t,
    decreases s.len() + t.len(),
{
    if s.len() == 0 {
        if t.len() > 0 {
            lemma_encode_last(t);
        }
        assert(s =~= t);
    } else if t.len() == 0 {
        lemma_encode_last(s);
    } else {
        let b = encode_spec(s);
        let s1 = s.drop_last();
        let t1 = t.drop_last();
        let x = s.last();
        let y = t.last();
        let p = encode_spec(s1).len() as int;
        let q = encode_spec(t1).len() as int;
        assert(is_entry(s[s.len() - 1]));
        assert(is_entry(t[t.len() - 1]));
        assert(all_entries(s1)) by {
            assert forall|i: int| 0 <= i < s1.len() implies is_entry(#[trigger] s1[i]) by {
                assert(s1[i] == s[i]);
            }
        }
        assert(all_entries(t1)) by {
            assert forall|i: int| 0 <= i < t1.len() implies is_entry(#[trigger] t1[i]) by {
                assert(t1[i] == t[i]);
            }
        }
        assert(b == (encode_spec(s1) + x) + seq![NEWLINE]);
        assert(b == (encode_spec(t1) + y) + seq![NEWLINE]);
        assert(b.len() == p + x.len() + 1);
        assert(b.len() == q + y.len() + 1);
        if p < q {
            lemma_encode_last(t1);
            assert(b[q - 1] == (encode_spec(s1) + x)[q - 1]);
            assert(b[q - 1] == encode_spec(t1)[q - 1]);
            assert(b[q - 1] == x[q - 1 - p]);
        } else if q < p {
            lemma_encode_last(s1);
            assert(b[p - 1] == (encode_spec(t1) + y)[p - 1]);
            assert(b[p - 1] == encode_spec(s1)[p - 1]);
            assert(b[p - 1] == y[p - 1 - q]);
        } else {
            assert(encode_spec(s1) =~= b.subrange(0, p));
            assert(encode_spec(t1) =~= b.subrange(0, q));
            assert(x =~= b.subrange(p, b.len() - 1));
            assert(y =~= b.subrange(q, b.len() - 1));
            lemma_encode_injective(s1, t1);
            assert(s =~= s1.push(x));
            assert(t =~= t1.push(y));
        }
    }
}

/// The stored form of a stack is a well-formed record.
pub proof fn lemma_encode_well_formed(s: Seq<Seq<u8>>)
    requires
        all_entries(s),
    ensures
        well_formed_record(encode_spec(s)),
    decreases s.len(),
{
    if s.len() > 0 {
        let s1 = s.drop_last();
        let x = s.last();
        let b = encode_spec(s);
        let a = encode_spec(s1);
        let p = a.len() as int;
        assert(is_entry(s[s.len() - 1]));
        assert(all_entries(s1)) by {
            assert forall|i: int| 0 <= i < s1.len() implies is_entry(#[trigger] s1[i]) by {
                assert(s1[i] == s[i]);
            }
        }
        lemma_encode_well_formed(s1);
        assert forall|j: int| 0 <= j < b.len() && #[trigger] line_start(b, j) implies b[j] == SLASH by {
            if j < p {
                assert(line_start(a, j));
            } else if j > p {
                assert(b[j - 1] == x[j - 1 - p]);
            }
        }
    }
}

/// The stored form of `stack`.
pub fn encode_record(stack: &DirectoryStack) -> (r: Vec<u8>)
    ensures
        r@ == encode_spec(stack@),
{
    let entries = stack.get_stack();
    let mut out: Vec<u8> = Vec::new();
    let mut i: usize = 0;
    while i < entries.len()
        invariant
            0 <= i <= entries.len(),
            view_entries(entries@) == stack@,
            out@ == encode_spec(stack@.subrange(0, i as int)),
        decreases entries.len() - i,
    {
        let e = entries[i].as_slice();
        let ghost before = out@;
        let mut k: usize = 0;
        while k < e.len()
            invariant
                0 <= k <= e.len(),
                out@ == before + e@.subrange(0, k as int),
            decreases e.len() - k,
        {
            out.push(e[k]);
            k = k + 1;
            proof {
                assert(e@.subrange(0, k as int) =~= e@.subrange(0, k - 1).push(e@[k - 1]));
            }
        }
        out.push(NEWLINE);
        proof {
            assert(view_entries(entries@)[i as int] == entries@[i as int]@);
            assert(e@.subrange(0, e@.len() as int) =~= e@);
            let s = stack@.subrange(0, i + 1);
            assert(s.drop_last() =~= stack@.subrange(0, i as int));
            assert(out@ =~= encode_spec(s));
        }
        i = i + 1;
    }
    proof {
        assert(stack@.subrange(0, entries@.len() as int) =~= stack@);
    }
    out
}

/// The bytes `b[from..to]` as a fresh vector.
fn copy_range(b: &[u8], from: usize, to: usize) -> (r: Vec<u8>)
    requires
        from <= to <= b@.len(),
    ensures
        r@ == b@.subrange(from as int, to as int),
{
    let mut out: Vec<u8> = Vec::new();
    let mut i: usize = from;
    while i < to
        invariant
            from <= i <= to,
            to <= b@.len(),
            out@ =~= b@.subrange(from as int, i as int),
        decreases to - i,
    {
        out.push(b[i]);
        i = i + 1;
    }
    out
}

/// Reads a stored record: `None` (no record yet) is the empty stack; a
/// well-formed record is the stack it stores; anything else is `Corrupt`.
pub fn decode_record(record: Option<&[u8]>) -> (r: Result<DirectoryStack, RecordError>)
    ensures
        match record {
            None => r matches Ok(s) && s@.len() == 0,
            Some(b) => (r is Ok <==> well_formed_record(b@)),
        },
        r matches Ok(s) ==> s.wf(),
        r matches Ok(s) ==> record matches Some(b) ==> encode_spec(s@) == b@,
{
    match record {
        None => Ok(DirectoryStack::new()),
        Some(b) => decode_bytes(b),
    }
}

/// Reads the stack stored in the bytes `b`, or fails with `Corrupt` when they
/// are not a well-formed record.
pub fn decode_bytes(b: &[u8]) -> (r: Result<DirectoryStack, RecordError>)
    ensures
        r is Ok <==> well_formed_record(b@),
        r matches Ok(s) ==> s.wf() && encode_spec(s@) == b@,
{
    let mut stack = DirectoryStack::new();
    let mut start: usize = 0;
    let mut i: usize = 0;
    while i < b.len()
        invariant
            start <= i <= b@.len(),
            stack.wf(),
            encode_spec(stack@) == b@.subrange(0, start as int),
            line_start(b@, start as int),
            forall|j: int| start <= j < i ==> #[trigger] b@[j] != NEWLINE,
            start < i ==> b@[start as int] == SLASH,
            forall|j: int| 0 <= j < i && #[trigger] line_start(b@, j) ==> b@[j] == SLASH,
        decreases b@.len() - i,
    {
        if (i == 0 || b[i - 1] == NEWLINE) && b[i] != SLASH {
            proof {
                assert(line_start(b@, i as int));
            }
            return Err(RecordError::Corrupt);
        }
        if b[i] == NEWLINE {
            let line = copy_range(b, start, i);
            let ghost prev = stack@;
            proof {
                assert(line_start(b@, start as int));
                assert forall|j: int| 0 <= j < line@.len() implies #[trigger] line@[j] != NEWLINE by {
                    assert(line@[j] == b@[start + j]);
                }
            }
            let pushed = stack.push_entry(Some(line));
            proof {
                assert(stack@ == prev.push(line@));
                assert(stack@.drop_last() =~= prev);
                assert(b@.subrange(0, i + 1) =~= b@.subrange(0, start as int) + line@ + seq![NEWLINE]);
            }
            start = i + 1;
        }
        i = i + 1;
    }
    if start != b.len() {
        proof {
            assert(b@[b@.len() - 1] != NEWLINE);
        }
        return Err(RecordError::Corrupt);
    }
    proof {
        assert(b@.subrange(0, b@.len() as int) =~= b@);
        lemma_encode_well_formed(stack@);
    }
    Ok(stack)
}

} // verus!
