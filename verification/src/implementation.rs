//! The player-facing side: how received danmaku are shown.
use std::sync::atomic::AtomicBool;
use std::sync::{Arc, Mutex, MutexGuard};
use vstd::prelude::*;

use crate::text::str_eq;

verus! {

/// A received danmaku message: its fields, where present.
pub struct DanmakuMessage {
    pub msg_type: Option<String>,
    pub color: Option<String>,
    pub name: Option<String>,
    pub content: Option<String>,
}

/// `o`'s text, or `default` when it is absent.
pub open spec fn or_default(o: Option<String>, default: Seq<char>) -> Seq<char> {
    match o {
        Some(s) => s@,
        None => default,
    }
}

/// Whether `m` is a danmaku (a message without a type is not).
pub open spec fn is_danmaku(m: DanmakuMessage) -> bool {
    or_default(m.msg_type, "other"@) == "danmaku"@
}

/// The line shown for a danmaku: `color[name] content` and a line break, with `ffffff`,
/// `unknown` and a space for absent fields.
pub open spec fn danmaku_line(m: DanmakuMessage) -> Seq<char> {
    or_default(m.color, "ffffff"@) + "["@ + or_default(m.name, "unknown"@) + "] "@ + or_default(
        m.content,
        " "@,
    ) + "\n"@
}

/// The text shown for `ms`: the lines of its danmaku, in order; other messages show nothing.
pub open spec fn render_spec(ms: Seq<DanmakuMessage>) -> Seq<char>
    decreases ms.len(),
{
    if ms.len() == 0 {
        Seq::empty()
    } else if is_danmaku(ms.last()) {
        render_spec(ms.drop_last()) + danmaku_line(ms.last())
    } else {
        render_spec(ms.drop_last())
    }
}

/// Law: the text shown for two batches of messages, one after the other, is the text shown
/// for all of them at once.
pub proof fn law_render_concat(a: Seq<DanmakuMessage>, b: Seq<DanmakuMessage>)
    ensures
        render_spec(a + b) == render_spec(a) + render_spec(b),
    decreases b.len(),
{
    if b.len() == 0 {
        assert(a + b =~= a);
        assert(render_spec(a) + render_spec(b) =~= render_spec(a));
    } else {
        law_render_concat(a, b.drop_last());
        assert((a + b).drop_last() =~= a + b.drop_last());
        assert((a + b).last() == b.last());
        if is_danmaku(b.last()) {
            assert(render_spec(a) + (render_spec(b.drop_last()) + danmaku_line(b.last())) =~= (
            render_spec(a) + render_spec(b.drop_last())) + danmaku_line(b.last()));
        }
    }
}

fn field_or<'a>(o: &'a Option<String>, default: &'a str) -> (res: &'a str)
    ensures
        res@ == or_default(*o, default@),
{
    match o {
        Some(s) => s.as_str(),
        None => default,
    }
}

/// The text shown for the messages `msgs`, taken in order (see `render_spec`).
pub fn render_danmaku(msgs: &Vec<DanmakuMessage>) -> (res: String)
    ensures
        res@ == render_spec(msgs@),
{
    let mut ret = String::new();
    let mut i: usize = 0;
    assert(msgs@.take(0) =~= Seq::<DanmakuMessage>::empty());
    while i < msgs.len()
        invariant
            i <= msgs.len(),
            ret@ == render_spec(msgs@.take(i as int)),
        decreases msgs.len() - i,
    {
        let d = &msgs[i];
        assert(msgs@.take(i + 1).drop_last() =~= msgs@.take(i as int));
        let t = field_or(&d.msg_type, "other");
        if str_eq(t, "danmaku") {
            ret.append(field_or(&d.color, "ffffff"));
            ret.append("[");
            ret.append(field_or(&d.name, "unknown"));
            ret.append("] ");
            ret.append(field_or(&d.content, " "));
            ret.append("\n");
        }
        i = i + 1;
    }
    assert(msgs@.take(msgs.len() as int) =~= msgs@);
    ret
}

/// `std::sync::Mutex`, which guards the queue that danmaku clients fill.
#[verifier::external_type_specification]
#[verifier::external_body]
#[verifier::reject_recursive_types(T)]
pub struct ExMutex<T: ?Sized>(Mutex<T>);

/// Calls `std::sync::Mutex::new` on `queue`. Nothing is stated of the mutex: its contents
/// are shared with other threads, so no contract here speaks of them.
#[verifier::external_body]
fn guarded_queue(queue: Vec<DanmakuMessage>) -> (res: Mutex<Vec<DanmakuMessage>>) {
    Mutex::new(queue)
}

/// `std::sync::MutexGuard`, the lock held on the queue while it is emptied.
#[verifier::external_type_specification]
#[verifier::external_body]
#[verifier::reject_recursive_types(T)]
pub struct ExMutexGuard<'a, T: ?Sized + 'a>(MutexGuard<'a, T>);

/// Locks `fifo` (`std::sync::Mutex::lock`); `None` when the lock is poisoned. Nothing is
/// stated of the guard: what it holds depends on the threads that fill the queue.
#[verifier::external_body]
fn lock_queue<'a>(fifo: &'a Mutex<Vec<DanmakuMessage>>) -> (res: Option<
    MutexGuard<'a, Vec<DanmakuMessage>>,
>) {
    fifo.lock().ok()
}

/// Takes every message held under `guard` (`std::mem::take`), oldest first, leaving the
/// queue empty. Nothing is stated of the result: the guard's contents are not modelled.
#[verifier::external_body]
fn take_guarded(guard: &mut MutexGuard<'_, Vec<DanmakuMessage>>) -> (res: Vec<DanmakuMessage>) {
    std::mem::take(&mut **guard)
}

/// The state a player keeps: the queue of received danmaku, the flag that stops the
/// danmaku client, and the flag that is set while the streamer is loading.
pub struct QLivePlayerLib {
    dm_fifo: Arc<Mutex<Vec<DanmakuMessage>>>,
    stop_flag: Arc<AtomicBool>,
    is_streamer_loading: Arc<AtomicBool>,
}

impl QLivePlayerLib {
    /// The queue of received danmaku.
    pub closed spec fn fifo_spec(&self) -> Arc<Mutex<Vec<DanmakuMessage>>> {
        self.dm_fifo
    }

    /// The stop flag of the danmaku client.
    pub closed spec fn stop_spec(&self) -> Arc<AtomicBool> {
        self.stop_flag
    }

    /// The loading flag of the streamer.
    pub closed spec fn loading_spec(&self) -> Arc<AtomicBool> {
        self.is_streamer_loading
    }

    /// A player with an empty queue, the stop flag cleared and the loading flag set.
    pub fn new() -> (res: Self) {
        QLivePlayerLib {
            dm_fifo: Arc::new(guarded_queue(Vec::new())),
            stop_flag: Arc::new(AtomicBool::new(false)),
            is_streamer_loading: Arc::new(AtomicBool::new(true)),
        }
    }

    /// The queue that danmaku clients fill.
    pub fn dm_fifo(&self) -> (res: &Arc<Mutex<Vec<DanmakuMessage>>>)
        ensures
            *res == self.fifo_spec(),
    {
        &self.dm_fifo
    }

    /// The flag that stops the danmaku client.
    pub fn stop_flag(&self) -> (res: &Arc<AtomicBool>)
        ensures
            *res == self.stop_spec(),
    {
        &self.stop_flag
    }

    /// The flag that is set while the streamer is loading.
    pub fn is_streamer_loading(&self) -> (res: &Arc<AtomicBool>)
        ensures
            *res == self.loading_spec(),
    {
        &self.is_streamer_loading
    }

    /// Takes every queued message and returns the text shown for them: the lines of the
    /// danmaku among them, in the order they were queued (see `render_spec`).
    pub fn get_danmaku(&mut self) -> (res: String)
        ensures
            exists|ms: Seq<DanmakuMessage>| res@ == render_spec(ms),
            *final(self) == *old(self),
    {
        let queued = match lock_queue(&self.dm_fifo) {
            Some(mut guard) => take_guarded(&mut guard),
            None => Vec::new(),
        };
        let res = render_danmaku(&queued);
        assert(res@ == render_spec(queued@));
        res
    }
}

} // verus!
