use web_crawler::unique_queue::UniqueQueue;

#[test]
fn push_twice_yields_single_entry() {
    let mut q = UniqueQueue::new();
    q.push("http://a.test/".to_string());
    q.push("http://a.test/".to_string());
    assert!(!q.is_empty());
    assert_eq!(q.pop(), Some("http://a.test/".to_string()));
    assert!(q.is_empty());
    assert_eq!(q.pop(), None);
}

#[test]
fn pop_order_is_last_in_first_out() {
    let mut q = UniqueQueue::new();
    q.push("a".to_string());
    q.push("b".to_string());
    q.push("c".to_string());
    assert_eq!(q.pop(), Some("c".to_string()));
    assert_eq!(q.pop(), Some("b".to_string()));
    assert_eq!(q.pop(), Some("a".to_string()));
    assert_eq!(q.pop(), None);
}

#[test]
fn popped_entry_may_be_pushed_again() {
    let mut q = UniqueQueue::new();
    q.push("a".to_string());
    assert_eq!(q.pop(), Some("a".to_string()));
    q.push("a".to_string());
    assert_eq!(q.pop(), Some("a".to_string()));
}

#[test]
fn empty_queue_reports_empty() {
    let mut q = UniqueQueue::new();
    assert!(q.is_empty());
    q.push("x".to_string());
    assert!(!q.is_empty());
}
