use soundtrack::commands::{SoundtrackCommands, SoundtrackQueue};
use soundtrack::handles::SoundtrackHandles;
use soundtrack::playback::{AudioPlayback, PlaybackMode};
use soundtrack::soundtrack::{PlaySoundtrack, SoundtrackEntity, SoundtrackWorld};

fn table() -> SoundtrackHandles {
    let mut handles = SoundtrackHandles::new();
    handles.insert("credits".to_string(), 11);
    handles.insert("gameplay".to_string(), 22);
    handles
}

#[test]
fn handles_look_up_registered_names() {
    let handles = table();
    assert_eq!(handles.get(&"credits".to_string()), Some(11));
    assert_eq!(handles.get(&"gameplay".to_string()), Some(22));
    assert_eq!(handles.get(&"menu".to_string()), None);
    assert!(handles.contains(&"credits".to_string()));
    assert!(!handles.contains(&"menu".to_string()));
}

#[test]
fn handles_insert_replaces_existing_name() {
    let mut handles = table();
    handles.insert("credits".to_string(), 99);
    assert_eq!(handles.get(&"credits".to_string()), Some(99));
    assert_eq!(handles.get(&"gameplay".to_string()), Some(22));
}

#[test]
fn empty_handles_hold_nothing() {
    let handles = SoundtrackHandles::new();
    assert_eq!(handles.get(&String::new()), None);
    assert!(!handles.contains(&"credits".to_string()));
}

#[test]
fn looping_playback_loops() {
    let p = AudioPlayback::looping(7);
    assert_eq!(p.handle, 7);
    assert_eq!(p.mode, PlaybackMode::Loop);
}

#[test]
fn plan_for_key_despawns_marked_and_spawns_looping() {
    let handles = table();
    let request = PlaySoundtrack::Key("gameplay".to_string());
    let switch = request.plan(&vec![3, 5], &handles);
    assert_eq!(switch.despawn, vec![3, 5]);
    assert_eq!(switch.spawn, Some(AudioPlayback { handle: 22, mode: PlaybackMode::Loop }));
}

#[test]
fn plan_for_disable_spawns_nothing() {
    let handles = table();
    let switch = PlaySoundtrack::Disable.plan(&vec![4], &handles);
    assert_eq!(switch.despawn, vec![4]);
    assert_eq!(switch.spawn, None);
}

#[test]
fn plan_with_nothing_marked_despawns_nothing() {
    let handles = table();
    let switch = PlaySoundtrack::Key("credits".to_string()).plan(&Vec::new(), &handles);
    assert!(switch.despawn.is_empty());
    assert_eq!(switch.spawn, Some(AudioPlayback { handle: 11, mode: PlaybackMode::Loop }));
}

#[test]
fn playing_a_key_leaves_one_marked_entity() {
    let handles = table();
    let mut world = SoundtrackWorld::new();
    world.apply(&PlaySoundtrack::Key("credits".to_string()), &handles);
    let marked = world.soundtracks();
    assert_eq!(marked.len(), 1);
    assert_eq!(marked[0].playback, AudioPlayback { handle: 11, mode: PlaybackMode::Loop });
    assert_eq!(world.query_marked(), vec![marked[0].entity]);
}

#[test]
fn disabling_leaves_no_marked_entity() {
    let handles = table();
    let mut world = SoundtrackWorld::new();
    world.apply(&PlaySoundtrack::Key("credits".to_string()), &handles);
    world.apply(&PlaySoundtrack::Disable, &handles);
    assert!(world.soundtracks().is_empty());
    assert!(world.query_marked().is_empty());
}

#[test]
fn disabling_an_empty_world_keeps_it_empty() {
    let handles = table();
    let mut world = SoundtrackWorld::new();
    world.apply(&PlaySoundtrack::Disable, &handles);
    assert!(world.soundtracks().is_empty());
    assert_eq!(world.next_entity(), 0);
}

#[test]
fn second_key_replaces_first() {
    let handles = table();
    let mut world = SoundtrackWorld::new();
    world.apply(&PlaySoundtrack::Key("credits".to_string()), &handles);
    let first = world.query_marked()[0];
    world.apply(&PlaySoundtrack::Key("gameplay".to_string()), &handles);
    let marked = world.soundtracks();
    assert_eq!(marked.len(), 1);
    assert_eq!(marked[0].playback.handle, 22);
    assert_ne!(marked[0].entity, first);
}

#[test]
fn apply_removes_every_marked_entity() {
    let handles = table();
    let mut world = SoundtrackWorld::new();
    world.spawn(AudioPlayback::looping(1));
    world.spawn(AudioPlayback { handle: 2, mode: PlaybackMode::Once });
    world.spawn(AudioPlayback::looping(3));
    assert_eq!(world.query_marked(), vec![0, 1, 2]);
    world.apply(&PlaySoundtrack::Key("gameplay".to_string()), &handles);
    let marked = world.soundtracks();
    assert_eq!(
        marked,
        vec![SoundtrackEntity { entity: 3, playback: AudioPlayback::looping(22) }]
    );
}

#[test]
fn spawn_and_despawn_track_entities() {
    let mut world = SoundtrackWorld::new();
    let a = world.spawn(AudioPlayback::looping(1));
    let b = world.spawn(AudioPlayback::looping(2));
    assert_eq!((a, b), (0, 1));
    assert_eq!(world.next_entity(), 2);
    world.despawn(a);
    assert_eq!(world.query_marked(), vec![b]);
    world.despawn(42);
    assert_eq!(world.query_marked(), vec![b]);
}

#[test]
fn queued_requests_apply_in_order() {
    let handles = table();
    let mut queue = SoundtrackQueue::new();
    queue.play_soundtrack("credits".to_string());
    queue.play_soundtrack("gameplay".to_string());
    assert_eq!(queue.len(), 2);
    let mut world = SoundtrackWorld::new();
    world.apply_queued(queue, &handles);
    let marked = world.soundtracks();
    assert_eq!(
        marked,
        vec![SoundtrackEntity { entity: 1, playback: AudioPlayback::looping(22) }]
    );
}

#[test]
fn queued_stop_ends_soundtrack() {
    let handles = table();
    let mut queue = SoundtrackQueue::new();
    queue.play_soundtrack("credits".to_string());
    queue.stop_current_soundtrack();
    let mut world = SoundtrackWorld::new();
    world.apply_queued(queue, &handles);
    assert!(world.soundtracks().is_empty());
    assert_eq!(world.next_entity(), 1);
}
