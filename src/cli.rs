use vstd::prelude::*;
use crate::operation::{run_operation, writes, OperationError, Reply, StackOperation, opt_record, readable, stored_stack, stack_error};
use crate::record::encode_spec;
use crate::session::{decimal, push_decimal};
use crate::stack::{opt_bytes, pop_outcome, push_outcome};

verus! {

/// `cd -- ` in ASCII.
pub open spec fn cd_prefix() -> Seq<u8> {
    seq![99u8, 100u8, 32u8, 45u8, 45u8, 32u8]
}

/// `echo '` in ASCII.
pub open spec fn echo_prefix() -> Seq<u8> {
    seq![101u8, 99u8, 104u8, 111u8, 32u8, 39u8]
}

/// ` - ` in ASCII.
pub open spec fn separator() -> Seq<u8> {
    seq![32u8, 45u8, 32u8]
}

/// The shell command that changes into `path`.
pub open spec fn cd_spec(path: Seq<u8>) -> Seq<u8> {
    cd_prefix() + path
}

/// The listing line for entry `p` at position `n`, counted from the top.
pub open spec fn listing_line(n: nat, p: Seq<u8>) -> Seq<u8> {
    echo_prefix() + decimal(n) + separator() + p + seq![39u8, 10u8]
}

/// The listing of `s` from its top down, numbering from `n`.
pub open spec fn listing_from(s: Seq<Seq<u8>>, n: nat) -> Seq<u8>
    decreases s.len(),
{
    if s.len() == 0 {
        Seq::empty()
    } else {
        listing_line(n, s.last()) + listing_from(s.drop_last(), n + 1)
    }
}

fn push_all_bytes(out: &mut Vec<u8>, b: &[u8])
    ensures
        final(out)@ == old(out)@ + b@,
{
    let mut i: usize = 0;
    while i < b.len()
        invariant
            0 <= i <= b.len(),
            out@ == old(out)@ + b@.subrange(0, i as int),
        decreases b.len() - i,
    {
        out.push(b[i]);
        i = i + 1;
        proof {
            assert(b@.subrange(0, i as int) =~= b@.subrange(0, i - 1).push(b@[i - 1]));
        }
    }
    proof {
        assert(b@.subrange(0, b@.len() as int) =~= b@);
    }
}

/// The shell command that changes into `path`: `cd -- <path>`.
pub fn cd_directive(path: &[u8]) -> (r: Vec<u8>)
    ensures
        r@ == cd_spec(path@),
{
    let mut out: Vec<u8> = Vec::new();
    out.push(99u8);
    out.push(100u8);
    out.push(32u8);
    out.push(45u8);
    out.push(45u8);
    out.push(32u8);
    push_all_bytes(&mut out, path);
    proof {
        assert(out@ =~= cd_spec(path@));
    }
    out
}

/// Why a listing could not be made.
#[derive(Debug, Clone, Copy, PartialEq, Eq, Structural)]
pub enum ListingError {
    /// There is nothing to list.
    EmptyStack,
}

/// One `echo '<n> - <path>'` line per entry, the newest first and numbered
/// from 0; an empty stack is reported as an error.
pub fn stack_listing(entries: &Vec<Vec<u8>>) -> (r: Result<Vec<u8>, ListingError>)
    ensures
        match r {
            Ok(t) => entries@.len() > 0
                && t@ == listing_from(crate::stack::view_entries(entries@), 0),
            Err(e) => entries@.len() == 0 && e == ListingError::EmptyStack,
        },
{
    let n = entries.len();
    if n == 0 {
        return Err(ListingError::EmptyStack);
    }
    let ghost s = crate::stack::view_entries(entries@);
    let mut out: Vec<u8> = Vec::new();
    let mut i: usize = 0;
    proof {
        assert(s.subrange(0, n as int) =~= s);
        assert(out@ + listing_from(s, 0) =~= listing_from(s, 0));
    }
    while i < n
        invariant
            0 <= i <= n,
            n == entries@.len(),
            s == crate::stack::view_entries(entries@),
            out@ + listing_from(s.subrange(0, n - i), i as nat) == listing_from(s, 0),
        decreases n - i,
    {
        let ghost before = out@;
        let ghost sub = s.subrange(0, n - i);
        let p = entries[n - 1 - i].as_slice();
        proof {
            assert(sub.last() == s[n - 1 - i]);
            assert(s[n - 1 - i] == entries@[n - 1 - i]@);
            assert(sub.drop_last() =~= s.subrange(0, n - (i + 1)));
        }
        out.push(101u8);
        out.push(99u8);
        out.push(104u8);
        out.push(111u8);
        out.push(32u8);
        out.push(39u8);
        push_decimal(&mut out, i as u64);
        out.push(32u8);
        out.push(45u8);
        out.push(32u8);
        push_all_bytes(&mut out, p);
        out.push(39u8);
        out.push(10u8);
        proof {
            assert(out@ =~= before + listing_line(i as nat, sub.last()));
            assert(listing_from(sub, i as nat) == listing_line(i as nat, sub.last()) + listing_from(s.subrange(0, n - (i + 1)), (i + 1) as nat));
            assert(out@ + listing_from(s.subrange(0, n - (i + 1)), (i + 1) as nat) =~= before + listing_from(sub, i as nat));
        }
        i = i + 1;
    }
    proof {
        assert(s.subrange(0, 0) =~= Seq::<Seq<u8>>::empty());
        assert(out@ + Seq::<u8>::empty() =~= out@);
    }
    Ok(out)
}

/// The result of a navigation: the record to store in place of the old one
/// (`None`: leave the store untouched), and the shell command to print.
pub struct Navigation {
    pub write: Option<Vec<u8>>,
    pub command: Result<Vec<u8>, OperationError>,
}

/// Pushes `current` (the canonical working directory) onto the stack stored
/// in `record` and changes into `target` (the canonical form of the requested
/// path, `None` when it named no existing directory). Nothing is stored when
/// the target or the current directory is invalid.
pub fn push_path(record: Option<&[u8]>, target: Option<Vec<u8>>, current: Option<Vec<u8>>) -> (r: Navigation)
    ensures
        target is None ==> r.write is None && r.command == Err::<Vec<u8>, OperationError>(OperationError::InvalidPath),
        target matches Some(t) ==> {
            &&& !readable(opt_record(record)) ==> r.write is None && r.command == Err::<Vec<u8>, OperationError>(OperationError::Corrupt)
            &&& readable(opt_record(record)) ==> {
                let (s2, res) = push_outcome(stored_stack(opt_record(record)), opt_bytes(current));
                match res {
                    Ok(_) => writes(r.write, encode_spec(s2)) && (r.command matches Ok(c) && c@ == cd_spec(t@)),
                    Err(e) => r.write is None && r.command == Err::<Vec<u8>, OperationError>(stack_error(e)),
                }
            }
        },
{
    let t = match target {
        Some(t) => t,
        None => {
            return Navigation { write: None, command: Err(OperationError::InvalidPath) };
        },
    };
    let outcome = run_operation(record, StackOperation::Push(current));
    match outcome.reply {
        Ok(_) => Navigation { write: outcome.write, command: Ok(cd_directive(t.as_slice())) },
        Err(e) => Navigation { write: outcome.write, command: Err(e) },
    }
}

/// Pops the top entry of the stack stored in `record` and changes into it.
pub fn pop_path(record: Option<&[u8]>) -> (r: Navigation)
    ensures
        !readable(opt_record(record)) ==> r.write is None && r.command == Err::<Vec<u8>, OperationError>(OperationError::Corrupt),
        readable(opt_record(record)) ==> {
            let s = stored_stack(opt_record(record));
            match pop_outcome(s).1 {
                Ok(p) => writes(r.write, encode_spec(pop_outcome(s).0)) && (r.command matches Ok(c) && c@ == cd_spec(p)),
                Err(e) => r.write is None && r.command == Err::<Vec<u8>, OperationError>(stack_error(e)),
            }
        },
{
    let outcome = run_operation(record, StackOperation::Pop);
    match outcome.reply {
        Ok(Reply::Popped(p)) => Navigation { write: outcome.write, command: Ok(cd_directive(p.as_slice())) },
        Ok(_) => Navigation { write: None, command: Err(OperationError::EmptyStack) },
        Err(e) => Navigation { write: outcome.write, command: Err(e) },
    }
}

/// A bookmark subcommand as given on the command line.
pub enum BookmarkAction {
    List,
    Add { name: String, path: Option<String> },
    Remove { name: String },
}

/// What a bookmark invocation asks for.
pub enum BookmarkRequest {
    /// List every bookmark.
    List,
    /// Record `path` under `name`.
    Add { name: String, path: String },
    /// Forget `name`.
    Remove { name: String },
    /// Push the current directory and change into the bookmark `name`.
    Go { name: String },
}

/// Why a bookmark invocation could not be understood.
#[derive(Debug, Clone, Copy, PartialEq, Eq, Structural)]
pub enum BookmarkError {
    /// `add` was given no path.
    MissingPath,
    /// Neither a subcommand nor a bookmark name was given.
    MissingName,
    /// No bookmark has the requested name.
    UnknownBookmark,
}

/// The directory to change into for a bookmark, given the path that the
/// bookmark store holds under the requested name (`None`: no such bookmark).
pub fn bookmark_target(found: Option<String>) -> (r: Result<String, BookmarkError>)
    ensures
        match found {
            Some(p) => r matches Ok(t) && t@ == p@,
            None => r == Err::<String, BookmarkError>(BookmarkError::UnknownBookmark),
        },
{
    match found {
        Some(p) => Ok(p),
        None => Err(BookmarkError::UnknownBookmark),
    }
}

/// Decides what a bookmark invocation asks for: a subcommand wins over a
/// name; `add` needs a path; with neither, the invocation is refused.
pub fn handle_bookmark(action: Option<BookmarkAction>, name: Option<String>) -> (r: Result<BookmarkRequest, BookmarkError>)
    ensures
        match action {
            Some(BookmarkAction::List) => r matches Ok(BookmarkRequest::List),
            Some(BookmarkAction::Add { name: n, path: Some(p) }) =>
                r matches Ok(BookmarkRequest::Add { name: n2, path: p2 }) && n2@ == n@ && p2@ == p@,
            Some(BookmarkAction::Add { name: _, path: None }) =>
                r == Err::<BookmarkRequest, BookmarkError>(BookmarkError::MissingPath),
            Some(BookmarkAction::Remove { name: n }) =>
                r matches Ok(BookmarkRequest::Remove { name: n2 }) && n2@ == n@,
            None => match name {
                Some(n) => r matches Ok(BookmarkRequest::Go { name: n2 }) && n2@ == n@,
                None => r == Err::<BookmarkRequest, BookmarkError>(BookmarkError::MissingName),
            },
        },
{
    match action {
        Some(BookmarkAction::List) => Ok(BookmarkRequest::List),
        Some(BookmarkAction::Add { name, path }) => add_bookmarks(name, path),
        Some(BookmarkAction::Remove { name }) => Ok(BookmarkRequest::Remove { name }),
        None => match name {
            Some(n) => Ok(BookmarkRequest::Go { name: n }),
            None => Err(BookmarkError::MissingName),
        },
    }
}

/// An `add` subcommand: refused without a path.
pub fn add_bookmarks(name: String, path: Option<String>) -> (r: Result<BookmarkRequest, BookmarkError>)
    ensures
        match path {
            Some(p) => r matches Ok(BookmarkRequest::Add { name: n2, path: p2 }) && n2@ == name@ && p2@ == p@,
            None => r == Err::<BookmarkRequest, BookmarkError>(BookmarkError::MissingPath),
        },
{
    match path {
        Some(p) => Ok(BookmarkRequest::Add { name, path: p }),
        None => Err(BookmarkError::MissingPath),
    }
}

/// The bytes of each bookmark name and path.
pub open spec fn mark_views(v: Seq<(Vec<u8>, Vec<u8>)>) -> Seq<(Seq<u8>, Seq<u8>)> {
    v.map_values(|e: (Vec<u8>, Vec<u8>)| (e.0@, e.1@))
}

/// One `<name> : <path>` line per bookmark, in the order given.
pub open spec fn bookmark_lines(s: Seq<(Seq<u8>, Seq<u8>)>) -> Seq<u8>
    decreases s.len(),
{
    if s.len() == 0 {
        Seq::empty()
    } else {
        bookmark_lines(s.drop_last()) + s.last().0 + seq![32u8, 58u8, 32u8] + s.last().1 + seq![10u8]
    }
}

/// The listing of the bookmarks `marks`, one `<name> : <path>` line each.
pub fn list_bookmarks(marks: &Vec<(Vec<u8>, Vec<u8>)>) -> (r: Vec<u8>)
    ensures
        r@ == bookmark_lines(mark_views(marks@)),
{
    let ghost s = mark_views(marks@);
    let mut out: Vec<u8> = Vec::new();
    let mut i: usize = 0;
    while i < marks.len()
        invariant
            0 <= i <= marks.len(),
            s == mark_views(marks@),
            out@ == bookmark_lines(s.subrange(0, i as int)),
        decreases marks.len() - i,
    {
        let ghost before = out@;
        let name = marks[i].0.as_slice();
        let path = marks[i].1.as_slice();
        push_all_bytes(&mut out, name);
        out.push(32u8);
        out.push(58u8);
        out.push(32u8);
        push_all_bytes(&mut out, path);
        out.push(10u8);
        proof {
            let sub = s.subrange(0, i + 1);
            assert(sub.drop_last() =~= s.subrange(0, i as int));
            assert(sub.last() == s[i as int]);
            assert(s[i as int] == (marks@[i as int].0@, marks@[i as int].1@));
            assert(out@ =~= bookmark_lines(sub));
        }
        i = i + 1;
    }
    proof {
        assert(s.subrange(0, marks@.len() as int) =~= s);
    }
    out
}

} // verus!
