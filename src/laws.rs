use vstd::prelude::*;

use crate::playback::PlaybackMode;
use crate::soundtrack::switched;
use crate::soundtrack::switched_all;
use crate::soundtrack::PlaySoundtrack;
use crate::soundtrack::WorldView;

verus! {

/// Playing a registered soundtrack leaves exactly one marked entity, which
/// loops the handle registered under that name.
pub proof fn law_play_leaves_one(w: WorldView, name: String, handles: Map<Seq<char>, u64>)
    requires
        handles.contains_key(name@),
    ensures
        switched(w, PlaySoundtrack::Key(name), handles).marked.len() == 1,
        switched(w, PlaySoundtrack::Key(name), handles).marked[0].playback.handle
            == handles[name@],
        switched(w, PlaySoundtrack::Key(name), handles).marked[0].playback.mode
            == PlaybackMode::Loop,
{
}

/// Stopping the soundtrack leaves no marked entity.
pub proof fn law_disable_leaves_none(w: WorldView, handles: Map<Seq<char>, u64>)
    ensures
        switched(w, PlaySoundtrack::Disable, handles).marked.len() == 0,
{
}

/// Playing one soundtrack and then another leaves exactly one marked entity,
/// which loops the second soundtrack, and none of the entities that the first
/// request left behind.
pub proof fn law_second_replaces_first(
    w: WorldView,
    first: String,
    second: String,
    handles: Map<Seq<char>, u64>,
)
    requires
        handles.contains_key(first@),
        handles.contains_key(second@),
        w.next < u64::MAX,
    ensures
        ({
            let between = switched(w, PlaySoundtrack::Key(first), handles);
            let after = switched(between, PlaySoundtrack::Key(second), handles);
            &&& after.marked.len() == 1
            &&& after.marked[0].playback.handle == handles[second@]
            &&& after.marked[0].playback.mode == PlaybackMode::Loop
            &&& forall|j: int|
                0 <= j < between.marked.len() ==> #[trigger] between.marked[j].entity
                    != after.marked[0].entity
            &&& switched_all(
                w,
                seq![PlaySoundtrack::Key(first), PlaySoundtrack::Key(second)],
                handles,
            ) == after
        }),
{
    let requests = seq![PlaySoundtrack::Key(first), PlaySoundtrack::Key(second)];
    assert(requests.drop_last() =~= seq![PlaySoundtrack::Key(first)]);
    assert(requests.drop_last().drop_last() =~= Seq::<PlaySoundtrack>::empty());
    reveal_with_fuel(switched_all, 3);
}

} // verus!
