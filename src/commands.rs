use vstd::prelude::*;

use crate::handles::SoundtrackHandles;
use crate::soundtrack::servable;
use crate::soundtrack::switched_all;
use crate::soundtrack::PlaySoundtrack;
use crate::soundtrack::SoundtrackWorld;

verus! {

/// Convenience methods that queue soundtrack requests.
pub trait SoundtrackCommands {
    /// The requests queued so far, oldest first.
    spec fn queued(&self) -> Seq<PlaySoundtrack>;

    /// Queues playing the soundtrack `name`, replacing the current one.
    /// Soundtracks loop.
    fn play_soundtrack(&mut self, name: String)
        ensures
            final(self).queued() == old(self).queued().push(PlaySoundtrack::Key(name)),
    ;

    /// Queues stopping the current soundtrack.
    fn stop_current_soundtrack(&mut self)
        ensures
            final(self).queued() == old(self).queued().push(PlaySoundtrack::Disable),
    ;
}

/// A queue of soundtrack requests, applied later to a world in order.
pub struct SoundtrackQueue {
    pending: Vec<PlaySoundtrack>,
}

impl SoundtrackQueue {
    /// An empty queue.
    pub fn new() -> (r: SoundtrackQueue)
        ensures
            r.queued().len() == 0,
    {
        SoundtrackQueue { pending: Vec::new() }
    }

    /// The number of queued requests.
    pub fn len(&self) -> (r: usize)
        ensures
            r == self.queued().len(),
    {
        self.pending.len()
    }
}

impl SoundtrackCommands for SoundtrackQueue {
    closed spec fn queued(&self) -> Seq<PlaySoundtrack> {
        self.pending@
    }

    fn play_soundtrack(&mut self, name: String) {
        self.pending.push(PlaySoundtrack::Key(name));
    }

    fn stop_current_soundtrack(&mut self) {
        self.pending.push(PlaySoundtrack::Disable);
    }
}

impl SoundtrackWorld {
    /// Applies every request of `queue` in order.
    pub fn apply_queued(&mut self, queue: SoundtrackQueue, handles: &SoundtrackHandles)
        requires
            handles.wf(),
            forall|i: int|
                0 <= i < queue.queued().len() ==> servable(#[trigger] queue.queued()[i], handles@),
            old(self)@.next + queue.queued().len() <= u64::MAX,
        ensures
            final(self)@ == switched_all(old(self)@, queue.queued(), handles@),
    {
        let requests = queue.pending;
        let mut i: usize = 0;
        while i < requests.len()
            invariant
                i <= requests@.len(),
                requests@ == queue.queued(),
                handles.wf(),
                forall|k: int|
                    0 <= k < requests@.len() ==> servable(#[trigger] requests@[k], handles@),
                self@.next <= old(self)@.next + i,
                old(self)@.next + requests@.len() <= u64::MAX,
                self@ == switched_all(old(self)@, requests@.subrange(0, i as int), handles@),
            decreases requests@.len() - i,
        {
            self.apply(&requests[i], handles);
            proof {
                let done = requests@.subrange(0, i + 1);
                assert(done.drop_last() =~= requests@.subrange(0, i as int));
                assert(done.last() == requests@[i as int]);
            }
            i = i + 1;
        }
        assert(requests@.subrange(0, i as int) =~= requests@);
    }
}

} // verus!
