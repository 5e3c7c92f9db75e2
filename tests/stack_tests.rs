use navigate::operation::{run_operation, OperationError, Reply, StackOperation};
use navigate::record::{decode_bytes, decode_record, encode_record, RecordError};
use navigate::stack::{check_entry, DirectoryStack, StackError};

fn b(s: &str) -> Vec<u8> {
    s.as_bytes().to_vec()
}

#[test]
fn push_then_pop_returns_pushed_path() {
    let mut st = DirectoryStack::new();
    assert_eq!(st.push_entry(Some(b("/home/user/projects"))), Ok(()));
    assert_eq!(st.pop_entry(), Ok(b("/home/user/projects")));
    assert_eq!(st.depth(), 0);
}

#[test]
fn depth_counts_pushes_and_pops() {
    let mut st = DirectoryStack::new();
    for p in ["/a", "/b", "/c", "/d"] {
        assert_eq!(st.push_entry(Some(b(p))), Ok(()));
    }
    assert_eq!(st.get_stack().len(), 4);
    assert!(st.pop_entry().is_ok());
    assert_eq!(st.get_stack().len(), 3);
}

#[test]
fn lifo_order_then_empty() {
    let mut st = DirectoryStack::new();
    assert_eq!(st.push_entry(Some(b("/home/user"))), Ok(()));
    assert_eq!(st.push_entry(Some(b("/tmp"))), Ok(()));
    assert_eq!(st.pop_entry(), Ok(b("/tmp")));
    assert_eq!(st.pop_entry(), Ok(b("/home/user")));
    assert_eq!(st.pop_entry(), Err(StackError::EmptyStack));
    assert!(st.get_stack().is_empty());
}

#[test]
fn pop_on_fresh_session_writes_nothing() {
    let out = run_operation(None, StackOperation::Pop);
    assert!(out.write.is_none());
    assert!(matches!(out.reply, Err(OperationError::EmptyStack)));
}

#[test]
fn clear_twice_is_clear_once() {
    let mut st = DirectoryStack::new();
    assert_eq!(st.clear_stack(), Ok(()));
    assert!(st.get_stack().is_empty());
    assert_eq!(st.clear_stack(), Ok(()));
    assert!(st.get_stack().is_empty());
    let once = run_operation(None, StackOperation::Clear);
    let w = once.write.unwrap();
    let twice = run_operation(Some(w.as_slice()), StackOperation::Clear);
    assert_eq!(twice.write.unwrap(), w);
    assert!(w.is_empty());
}

#[test]
fn invalid_path_leaves_stack_unchanged() {
    let mut st = DirectoryStack::new();
    assert_eq!(st.push_entry(Some(b("/home/user"))), Ok(()));
    let before = st.get_stack();
    assert_eq!(st.push_entry(None), Err(StackError::InvalidPath));
    assert_eq!(st.get_stack(), before);
    assert_eq!(st.push_entry(Some(b("relative/dir"))), Err(StackError::InvalidPath));
    assert_eq!(st.push_entry(Some(b("/with\nnewline"))), Err(StackError::InvalidPath));
    assert_eq!(st.push_entry(Some(Vec::new())), Err(StackError::InvalidPath));
    assert_eq!(st.get_stack(), before);
    let out = run_operation(None, StackOperation::Push(None));
    assert!(out.write.is_none());
    assert!(matches!(out.reply, Err(OperationError::InvalidPath)));
}

#[test]
fn serialized_pushes_keep_both_entries() {
    let first = run_operation(None, StackOperation::Push(Some(b("/srv/a"))));
    let rec = first.write.unwrap();
    let second = run_operation(Some(rec.as_slice()), StackOperation::Push(Some(b("/srv/b"))));
    let rec2 = second.write.unwrap();
    assert_eq!(rec2, b("/srv/a\n/srv/b\n"));
    let listed = run_operation(Some(rec2.as_slice()), StackOperation::List);
    assert!(listed.write.is_none());
    match listed.reply {
        Ok(Reply::Listed(v)) => assert_eq!(v, vec![b("/srv/a"), b("/srv/b")]),
        _ => panic!("expected a listing"),
    }
}

#[test]
fn peek_does_not_remove() {
    let mut st = DirectoryStack::new();
    assert_eq!(st.peek_entry(), Err(StackError::EmptyStack));
    assert_eq!(st.push_entry(Some(b("/x"))), Ok(()));
    assert_eq!(st.peek_entry(), Ok(b("/x")));
    assert_eq!(st.depth(), 1);
    let out = run_operation(Some(b"/x\n/y\n".as_slice()), StackOperation::Peek);
    assert!(out.write.is_none());
    match out.reply {
        Ok(Reply::Peeked(p)) => assert_eq!(p, b("/y")),
        _ => panic!("expected the top entry"),
    }
}

#[test]
fn same_path_may_appear_twice() {
    let mut st = DirectoryStack::new();
    assert_eq!(st.push_entry(Some(b("/tmp"))), Ok(()));
    assert_eq!(st.push_entry(Some(b("/tmp"))), Ok(()));
    assert_eq!(st.get_stack(), vec![b("/tmp"), b("/tmp")]);
}

#[test]
fn from_entries_checks_each_entry() {
    assert!(DirectoryStack::from_entries(vec![b("/a"), b("/b")]).is_some());
    assert!(DirectoryStack::from_entries(vec![b("/a"), b("b")]).is_none());
    assert!(check_entry(b"/"));
    assert!(!check_entry(b""));
}

#[test]
fn record_encodes_one_line_per_entry() {
    let st = DirectoryStack::from_entries(vec![b("/home/user"), b("/tmp")]).unwrap();
    let rec = encode_record(&st);
    assert_eq!(rec, b("/home/user\n/tmp\n"));
    let back = decode_bytes(&rec).ok().unwrap();
    assert_eq!(back.get_stack(), st.get_stack());
}

#[test]
fn missing_record_is_empty_stack() {
    let st = decode_record(None).ok().unwrap();
    assert_eq!(st.depth(), 0);
    let st = decode_bytes(b"").ok().unwrap();
    assert_eq!(st.depth(), 0);
}

#[test]
fn corrupt_records_are_reported() {
    assert_eq!(decode_bytes(b"/a\n/b").err(), Some(RecordError::Corrupt));
    assert_eq!(decode_bytes(b"/a\n\n/b\n").err(), Some(RecordError::Corrupt));
    assert_eq!(decode_bytes(b"a\n").err(), Some(RecordError::Corrupt));
    assert_eq!(decode_bytes(b"\n").err(), Some(RecordError::Corrupt));
    let out = run_operation(Some(b"garbage".as_slice()), StackOperation::Pop);
    assert!(out.write.is_none());
    assert!(matches!(out.reply, Err(OperationError::Corrupt)));
}

#[test]
fn clear_resets_a_corrupt_record() {
    let out = run_operation(Some(b"garbage".as_slice()), StackOperation::Clear);
    assert_eq!(out.write, Some(Vec::new()));
    assert!(matches!(out.reply, Ok(Reply::Cleared)));
    let listed = run_operation(Some(b"".as_slice()), StackOperation::List);
    assert!(matches!(listed.reply, Ok(Reply::Listed(v)) if v.is_empty()));
}

#[test]
fn pushes_one_invocation_at_a_time() {
    let mut record: Option<Vec<u8>> = None;
    for p in ["/a", "/b", "/c"] {
        let out = run_operation(record.as_deref(), StackOperation::Push(Some(b(p))));
        record = out.write;
    }
    let listed = run_operation(record.as_deref(), StackOperation::List);
    assert!(matches!(listed.reply, Ok(Reply::Listed(ref v)) if v.len() == 3));
    let popped = run_operation(record.as_deref(), StackOperation::Pop);
    assert!(matches!(popped.reply, Ok(Reply::Popped(ref p)) if p == &b("/c")));
    let after = run_operation(popped.write.as_deref(), StackOperation::List);
    assert!(matches!(after.reply, Ok(Reply::Listed(ref v)) if v.len() == 2));
}
