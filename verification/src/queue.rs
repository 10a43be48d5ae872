use vstd::prelude::*;
use crate::getch::{copy_key, Key, KeyView};
use crate::repl::{escape_signal, is_exit_char};

verus! {

/// The last two keys typed, oldest first; it starts out holding two `Null` keys.
pub struct Queue {
    queue: Vec<Key>,
}

impl View for Queue {
    type V = Seq<KeyView>;

    closed spec fn view(&self) -> Seq<KeyView> {
        self.queue@.map_values(|k: Key| k@)
    }
}

impl Queue {
    #[verifier::type_invariant]
    spec fn holds_two(&self) -> bool {
        self.queue@.len() == 2
    }

    pub fn new() -> (q: Self)
        ensures
            q@ == seq![KeyView::Null, KeyView::Null],
    {
        let q = Queue { queue: vec![Key::Null, Key::Null] };
        assert(q@ =~= seq![KeyView::Null, KeyView::Null]);
        q
    }

    /// Forgets the older key and keeps `ch` as the newest.
    pub fn enqueue(&mut self, ch: &Key)
        ensures
            final(self)@ == seq![old(self)@[1], ch@],
    {
        proof {
            use_type_invariant(&*self);
        }
        let newer = copy_key(&self.queue[1]);
        let latest = copy_key(ch);
        self.queue = vec![newer, latest];
        assert(self@ =~= seq![old(self)@[1], ch@]);
    }

    /// Whether the last two keys are the escape signal `~` followed by `.` or Ctrl-D.
    pub fn is_exit_chars(&mut self) -> (r: bool)
        ensures
            final(self)@ == old(self)@,
            r == (old(self)@[0] == escape_signal() && is_exit_char(old(self)@[1])),
    {
        proof {
            use_type_invariant(&*self);
        }
        let front = match &self.queue[0] {
            Key::Char(c) => *c == '~',
            _ => false,
        };
        if front {
            match &self.queue[1] {
                Key::Char(c) => *c == '.',
                Key::Ctrl(c) => *c == 'd',
                _ => false,
            }
        } else {
            false
        }
    }
}

impl Default for Queue {
    fn default() -> (q: Self)
        ensures
            q@ == seq![KeyView::Null, KeyView::Null],
    {
        Self::new()
    }
}

} // verus!

verus! {

/// Whether the keys `q` (oldest first) call for the exit: the escape signal, then `.` or
/// Ctrl-D.
pub open spec fn calls_for_exit(q: Seq<KeyView>) -> bool {
    q[0] == escape_signal() && is_exit_char(q[1])
}

/// The keys that the queue holds after `a` and then `b` are put in.
pub open spec fn after_two(q: Seq<KeyView>, a: KeyView, b: KeyView) -> Seq<KeyView> {
    let q1 = seq![q[1], a];
    seq![q1[1], b]
}

/// Whether the exit is called for depends only on the last two keys: after `a` and then `b`
/// are put in, whatever the queue held before, it is called for exactly when `a` is `~` and
/// `b` is `.` or Ctrl-D.
pub proof fn exit_depends_on_last_two_keys(q: Seq<KeyView>, a: KeyView, b: KeyView)
    ensures
        after_two(q, a, b) == seq![a, b],
        calls_for_exit(after_two(q, a, b)) == (a == escape_signal() && is_exit_char(b)),
{
    assert(after_two(q, a, b) =~= seq![a, b]);
}

} // verus!
