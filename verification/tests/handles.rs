use delaunay_mesh::handles::FixedDirectedEdgeHandle;

#[test]
fn test_new_normalized_and_index_and_sym() {
    for index in 0..10 {
        let handle: FixedDirectedEdgeHandle = FixedDirectedEdgeHandle::new_normalized(index);
        let rev = handle.rev();
        assert_eq!(handle.as_undirected().index(), index);
        assert!(handle.is_normalized());

        assert_ne!(handle, handle.rev());
        assert!(!rev.is_normalized());
        assert_eq!(rev.rev(), handle);
    }
}

#[test]
fn edge_stack_is_last_in_first_out() {
    let mut stack = delaunay_mesh::edge_stack::EdgeStack::new();
    assert_eq!(stack.len(), 0);
    assert_eq!(stack.pop(), None);
    assert!(stack.push(4));
    assert!(stack.push(9));
    assert!(stack.push(2));
    assert_eq!(stack.len(), 3);
    assert_eq!(stack.to_vec(), vec![4, 9, 2]);
    assert_eq!(stack.get(1), Some(9));
    assert_eq!(stack.get(3), None);
    assert_eq!(stack.pop(), Some(2));
    assert_eq!(stack.pop(), Some(9));
    assert_eq!(stack.to_vec(), vec![4]);
    for i in 0..40 {
        assert!(stack.push(i));
    }
    assert_eq!(stack.len(), 41);
    assert_eq!(stack.get(40), Some(39));
    assert_eq!(stack.pop(), Some(39));
}
