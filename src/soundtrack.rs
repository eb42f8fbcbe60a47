use vstd::prelude::*;

use crate::handles::SoundtrackHandles;
use crate::playback::AudioPlayback;
use crate::playback::PlaybackMode;

verus! {

/// A request to change the background soundtrack.
#[derive(Debug)]
pub enum PlaySoundtrack {
    /// Play the soundtrack registered under this name, replacing the current one.
    Key(String),
    /// Stop the current soundtrack and play none.
    Disable,
}

/// What a request spawns, given the asset table: for a name, a looping playback
/// of the handle registered under it; for a stop, nothing.
pub open spec fn spawn_for(request: PlaySoundtrack, handles: Map<Seq<char>, u64>) -> Option<
    AudioPlayback,
> {
    match request {
        PlaySoundtrack::Key(name) => Some(
            AudioPlayback { handle: handles[name@], mode: PlaybackMode::Loop },
        ),
        PlaySoundtrack::Disable => None,
    }
}

/// Whether the asset table can serve a request: a named soundtrack must be registered.
pub open spec fn servable(request: PlaySoundtrack, handles: Map<Seq<char>, u64>) -> bool {
    match request {
        PlaySoundtrack::Key(name) => handles.contains_key(name@),
        PlaySoundtrack::Disable => true,
    }
}

/// The changes that one request makes to the world: the entities to despawn,
/// with all their descendants, and the playback of the entity to spawn, if any.
pub struct SoundtrackSwitch {
    pub despawn: Vec<u64>,
    pub spawn: Option<AudioPlayback>,
}

impl PlaySoundtrack {
    /// Decides the switch for this request, where `marked` lists the entities that
    /// carry the soundtrack marker: every one of them goes, then the named
    /// soundtrack, if any, is spawned to loop.
    pub fn plan(&self, marked: &Vec<u64>, handles: &SoundtrackHandles) -> (r: SoundtrackSwitch)
        requires
            handles.wf(),
            servable(*self, handles@),
        ensures
            r.despawn@ == marked@,
            r.spawn == spawn_for(*self, handles@),
    {
        let mut despawn: Vec<u64> = Vec::new();
        let mut i: usize = 0;
        while i < marked.len()
            invariant
                i <= marked@.len(),
                despawn@ == marked@.subrange(0, i as int),
            decreases marked@.len() - i,
        {
            despawn.push(marked[i]);
            i = i + 1;
            proof {
                assert(despawn@ =~= marked@.subrange(0, i as int));
            }
        }
        assert(despawn@ =~= marked@);
        let spawn = match self {
            PlaySoundtrack::Key(name) => match handles.get(name) {
                Some(handle) => Some(AudioPlayback::looping(handle)),
                None => None,
            },
            PlaySoundtrack::Disable => None,
        };
        SoundtrackSwitch { despawn, spawn }
    }
}

/// An entity that carries the soundtrack marker, with the audio it plays.
#[derive(Clone, Copy, Debug, PartialEq, Eq, Structural)]
pub struct SoundtrackEntity {
    pub entity: u64,
    pub playback: AudioPlayback,
}

/// What the world holds of soundtracks: the marked entities, in the order they
/// were spawned, and the identifier that the next spawned entity receives.
pub struct WorldView {
    pub marked: Seq<SoundtrackEntity>,
    pub next: nat,
}

/// The world after one request: the marked entities are all gone, and for a
/// named soundtrack a single new entity plays it in a loop.
pub open spec fn switched(w: WorldView, request: PlaySoundtrack, handles: Map<Seq<char>, u64>) -> WorldView {
    match spawn_for(request, handles) {
        Some(p) => WorldView {
            marked: seq![SoundtrackEntity { entity: w.next as u64, playback: p }],
            next: w.next + 1,
        },
        None => WorldView { marked: Seq::empty(), next: w.next },
    }
}

/// The world after a sequence of requests, applied in order.
pub open spec fn switched_all(
    w: WorldView,
    requests: Seq<PlaySoundtrack>,
    handles: Map<Seq<char>, u64>,
) -> WorldView
    decreases requests.len(),
{
    if requests.len() == 0 {
        w
    } else {
        switched(switched_all(w, requests.drop_last(), handles), requests.last(), handles)
    }
}

/// Holds of the entities other than `entity`.
pub open spec fn other_than(entity: u64) -> spec_fn(SoundtrackEntity) -> bool {
    |e: SoundtrackEntity| e.entity != entity
}

/// Whether `entity` occurs in `ids` at position `from` or later.
spec fn listed_from(ids: Seq<u64>, from: int, entity: u64) -> bool {
    exists|m: int| from <= m < ids.len() && ids[m] == entity
}

/// The soundtrack entities of a world: those that carry the marker, and the
/// allocation of entity identifiers.
pub struct SoundtrackWorld {
    marked: Vec<SoundtrackEntity>,
    next: u64,
}

impl View for SoundtrackWorld {
    type V = WorldView;

    closed spec fn view(&self) -> WorldView {
        WorldView { marked: self.marked@, next: self.next as nat }
    }
}

impl SoundtrackWorld {
    /// A world with no soundtrack entity.
    pub fn new() -> (r: SoundtrackWorld)
        ensures
            r@.marked.len() == 0,
            r@.next == 0,
    {
        SoundtrackWorld { marked: Vec::new(), next: 0 }
    }

    /// The identifier that the next spawned entity receives.
    pub fn next_entity(&self) -> (r: u64)
        ensures
            r as nat == self@.next,
    {
        self.next
    }

    /// The entities that carry the soundtrack marker.
    pub fn query_marked(&self) -> (r: Vec<u64>)
        ensures
            r@ == self@.marked.map_values(|e: SoundtrackEntity| e.entity),
    {
        let mut r: Vec<u64> = Vec::new();
        let mut i: usize = 0;
        while i < self.marked.len()
            invariant
                i <= self.marked@.len(),
                r@ == self.marked@.subrange(0, i as int).map_values(|e: SoundtrackEntity| e.entity),
            decreases self.marked@.len() - i,
        {
            r.push(self.marked[i].entity);
            i = i + 1;
            proof {
                assert(r@ =~= self.marked@.subrange(0, i as int).map_values(
                    |e: SoundtrackEntity| e.entity,
                ));
            }
        }
        assert(self.marked@.subrange(0, i as int) =~= self.marked@);
        r
    }

    /// The marked entities with the audio they play, in the order they were spawned.
    pub fn soundtracks(&self) -> (r: Vec<SoundtrackEntity>)
        ensures
            r@ == self@.marked,
    {
        let mut r: Vec<SoundtrackEntity> = Vec::new();
        let mut i: usize = 0;
        while i < self.marked.len()
            invariant
                i <= self.marked@.len(),
                r@ == self.marked@.subrange(0, i as int),
            decreases self.marked@.len() - i,
        {
            r.push(self.marked[i]);
            i = i + 1;
            proof {
                assert(r@ =~= self.marked@.subrange(0, i as int));
            }
        }
        assert(self.marked@.subrange(0, i as int) =~= self.marked@);
        r
    }

    /// Removes the entity `entity`; the marked entities that remain keep their
    /// order. Its descendants, which carry no marker, are the engine's to remove.
    pub fn despawn(&mut self, entity: u64)
        ensures
            final(self)@.marked == old(self)@.marked.filter(other_than(entity)),
            final(self)@.next == old(self)@.next,
    {
        let mut kept: Vec<SoundtrackEntity> = Vec::new();
        let mut i: usize = 0;
        while i < self.marked.len()
            invariant
                i <= self.marked@.len(),
                kept@ == self.marked@.subrange(0, i as int).filter(other_than(entity)),
            decreases self.marked@.len() - i,
        {
            let e = self.marked[i];
            if e.entity != entity {
                kept.push(e);
            }
            proof {
                let s = self.marked@.subrange(0, i + 1);
                assert(s.drop_last() =~= self.marked@.subrange(0, i as int));
                assert(s.last() == e);
                reveal_with_fuel(Seq::filter, 1);
                assert(s.filter(other_than(entity)) == (if other_than(entity)(e) {
                    s.drop_last().filter(other_than(entity)).push(e)
                } else {
                    s.drop_last().filter(other_than(entity))
                }));
            }
            i = i + 1;
        }
        assert(self.marked@.subrange(0, i as int) =~= self.marked@);
        self.marked = kept;
    }

    /// Spawns a marked entity that plays `playback`, and returns it.
    pub fn spawn(&mut self, playback: AudioPlayback) -> (r: u64)
        requires
            old(self)@.next < u64::MAX,
        ensures
            r as nat == old(self)@.next,
            final(self)@.marked == old(self)@.marked.push(
                SoundtrackEntity { entity: r, playback },
            ),
            final(self)@.next == old(self)@.next + 1,
    {
        let entity = self.next;
        self.marked.push(SoundtrackEntity { entity, playback });
        self.next = self.next + 1;
        entity
    }

    /// Applies a request: despawns every marked entity, then spawns the named
    /// soundtrack, looping, when there is one.
    pub fn apply(&mut self, request: &PlaySoundtrack, handles: &SoundtrackHandles)
        requires
            handles.wf(),
            servable(*request, handles@),
            old(self)@.next < u64::MAX,
        ensures
            final(self)@ == switched(old(self)@, *request, handles@),
    {
        let marked = self.query_marked();
        let switch = request.plan(&marked, handles);
        let ghost ids = switch.despawn@;
        assert forall|j: int| 0 <= j < self@.marked.len() implies listed_from(
            ids,
            0,
            #[trigger] self@.marked[j].entity,
        ) by {
            assert(ids[j] == self@.marked[j].entity);
        }
        let mut i: usize = 0;
        while i < switch.despawn.len()
            invariant
                i <= ids.len(),
                ids == switch.despawn@,
                self@.next == old(self)@.next,
                forall|j: int|
                    0 <= j < self@.marked.len() ==> listed_from(
                        ids,
                        i as int,
                        #[trigger] self@.marked[j].entity,
                    ),
            decreases ids.len() - i,
        {
            let ghost before = self@.marked;
            let gone = switch.despawn[i];
            self.despawn(gone);
            proof {
                let pred = other_than(gone);
                assert forall|j: int| 0 <= j < self@.marked.len() implies listed_from(
                    ids,
                    i + 1,
                    #[trigger] self@.marked[j].entity,
                ) by {
                    before.lemma_filter_pred(pred, j);
                    assert(before.filter(pred).contains(self@.marked[j]));
                    before.lemma_filter_contains_rev(pred, self@.marked[j]);
                    let k = choose|k: int| 0 <= k < before.len() && before[k] == self@.marked[j];
                    assert(listed_from(ids, i as int, before[k].entity));
                    let m = choose|m: int| i <= m < ids.len() && ids[m] == before[k].entity;
                    assert(m != i);
                }
            }
            i = i + 1;
        }
        assert(self@.marked.len() == 0) by {
            if self@.marked.len() > 0 {
                assert(listed_from(ids, i as int, self@.marked[0].entity));
            }
        }
        match switch.spawn {
            Some(playback) => {
                self.spawn(playback);
                assert(self@.marked =~= seq![
                    SoundtrackEntity { entity: old(self)@.next as u64, playback },
                ]);
            },
            None => {
                assert(self@.marked =~= Seq::<SoundtrackEntity>::empty());
            },
        }
    }
}

} // verus!
