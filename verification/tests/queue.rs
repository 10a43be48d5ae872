use sisterm::getch::Key;
use sisterm::queue::Queue;

#[test]
fn test_enqueue() {
    let mut q = Queue::new();

    q.enqueue(&Key::Char('A'));
    q.enqueue(&Key::Char('B'));
}

#[test]
fn test_is_exit_chars() {
    let mut q = Queue::new();

    q.enqueue(&Key::Char('A'));
    q.enqueue(&Key::Char('B'));
    assert!(!q.is_exit_chars());

    q.enqueue(&Key::Char('~'));
    q.enqueue(&Key::Char('.'));
    assert!(q.is_exit_chars());

    q.enqueue(&Key::Char('.'));
    q.enqueue(&Key::Char('~'));
    assert!(!q.is_exit_chars());

    q.enqueue(&Key::Char('~'));
    q.enqueue(&Key::Char('\x04'));
    assert!(!q.is_exit_chars());

    q.enqueue(&Key::Ctrl('d'));
    assert!(!q.is_exit_chars());

    q.enqueue(&Key::Char('~'));
    q.enqueue(&Key::Ctrl('d'));
    assert!(q.is_exit_chars());
}

#[test]
fn new_queue_does_not_call_for_exit() {
    let mut q = Queue::default();
    assert!(!q.is_exit_chars());
    q.enqueue(&Key::Other(vec![0x7e]));
    q.enqueue(&Key::Char('.'));
    assert!(!q.is_exit_chars());
}
