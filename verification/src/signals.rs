//! The two signals of a running job: the request to stop, which comes in,
//! and the progress, which goes out.

use std::sync::atomic::AtomicBool;
use std::sync::atomic::Ordering;
use std::sync::mpsc::Sender;
use std::sync::Arc;
use vstd::prelude::*;

verus! {

/// The sending half of a channel of the standard library,
/// `std::sync::mpsc::Sender`. Nothing is known of what is inside.
#[verifier::external_type_specification]
#[verifier::external_body]
#[verifier::reject_recursive_types(T)]
pub struct ExSender<T>(Sender<T>);

/// Whether the job has been asked to stop. The flag is shared with whoever
/// may raise it, so one answer says nothing about the next.
pub fn stop_requested(stop: &Arc<AtomicBool>) -> (stopping: bool) {
    stop.load(Ordering::Relaxed)
}

/// Sends `(done, total)` down a channel with `std::sync::mpsc::Sender::send`.
/// The call does not block and does not fail the job: where nobody listens
/// any more the message is dropped. Nothing is claimed of it.
#[verifier::external_body]
fn send_progress(sender: &Sender<(u64, u64)>, done: u64, total: u64) {
    let _ = sender.send((done, total));
}

/// Where a job reports its progress: pairs of the number of blocks done and
/// their total. A sink keeps account of what was reported to it, and passes
/// each report on down its channel, if it has one.
pub struct ProgressSink {
    sender: Option<Sender<(u64, u64)>>,
    reported: Ghost<Seq<(u64, u64)>>,
}

impl View for ProgressSink {
    type V = Seq<(u64, u64)>;

    /// The reports made so far, oldest first.
    closed spec fn view(&self) -> Seq<(u64, u64)> {
        self.reported@
    }
}

impl ProgressSink {
    /// A sink that passes its reports on down `sender`.
    pub fn new(sender: Sender<(u64, u64)>) -> (sink: ProgressSink)
        ensures
            sink@ == Seq::<(u64, u64)>::empty(),
    {
        ProgressSink { sender: Some(sender), reported: Ghost(Seq::empty()) }
    }

    /// A sink that passes its reports on to nobody.
    pub fn silent() -> (sink: ProgressSink)
        ensures
            sink@ == Seq::<(u64, u64)>::empty(),
    {
        ProgressSink { sender: None, reported: Ghost(Seq::empty()) }
    }

    /// Reports that `done` of `total` blocks are done.
    pub fn report(&mut self, done: u64, total: u64)
        ensures
            final(self)@ == old(self)@.push((done, total)),
    {
        match &self.sender {
            Some(sender) => {
                send_progress(sender, done, total);
            },
            None => {},
        }
        self.reported = Ghost(self.reported@.push((done, total)));
    }
}

/// The reports of a job of `total` blocks that has done `done` of them: one
/// after each block, with the number of blocks done by then.
pub open spec fn block_reports(done: nat, total: nat) -> Seq<(u64, u64)> {
    Seq::new(done, |i: int| ((i + 1) as u64, total as u64))
}

/// One more block adds one report.
pub proof fn lemma_block_reports_push(done: nat, total: nat)
    ensures
        block_reports(done + 1, total) == block_reports(done, total).push(
            ((done + 1) as u64, total as u64),
        ),
{
    assert(block_reports(done + 1, total) =~= block_reports(done, total).push(
        ((done + 1) as u64, total as u64),
    ));
}

/// In the reports of a job the number of blocks done never falls, and the
/// total stays the same.
pub proof fn lemma_block_reports_rise(done: nat, total: nat, i: int, j: int)
    requires
        0 <= i <= j < done,
        done <= total <= u64::MAX,
    ensures
        block_reports(done, total)[i].0 <= block_reports(done, total)[j].0,
        block_reports(done, total)[i].0 <= total,
        block_reports(done, total)[i].1 == total,
{
}

} // verus!
