use wgpu_core::command::{
    CommandBuffer, CommandBufferDescriptor, CommandEncoderError, DebugMarker, Global,
    MarkerCommand, SwapChain, UsageConflict,
};
use wgpu_core::track::{PendingTransition, TrackerSet};

fn desc() -> CommandBufferDescriptor {
    CommandBufferDescriptor { label: None }
}

fn global_with(ids: &[u64]) -> Global<&'static str> {
    let mut g = Global::new();
    for &id in ids {
        g.command_buffers.insert(id, CommandBuffer::new("raw", 7, 1));
    }
    g
}

#[test]
fn finish_returns_identity_and_stops_recording() {
    let mut g = global_with(&[10]);
    assert_eq!(g.command_encoder_finish(10, &desc()), Ok(10));
    assert!(!g.command_buffers.get(10).unwrap().is_recording);
}

#[test]
fn finish_twice_is_not_recording_and_keeps_trackers() {
    let mut g = global_with(&[10]);
    g.command_buffers.entries[0].1.trackers.buffers.set(3, 0x4);
    g.command_buffers.entries[0].1.trackers.views.insert(8);
    assert_eq!(g.command_encoder_finish(10, &desc()), Ok(10));
    assert_eq!(
        g.command_encoder_finish(10, &desc()),
        Err(CommandEncoderError::NotRecording)
    );
    let cb = g.command_buffers.get(10).unwrap();
    assert_eq!(cb.trackers.buffers.query(3), Some(0x4));
    assert!(cb.trackers.views.contains(8));
}

#[test]
fn finish_unknown_identity_is_invalid() {
    let mut g = global_with(&[10]);
    assert_eq!(
        g.command_encoder_finish(11, &desc()),
        Err(CommandEncoderError::Invalid)
    );
    assert!(g.command_buffers.get(10).unwrap().is_recording);
}

#[test]
fn finish_stops_tracking_acquired_swap_chain_view() {
    let mut g = global_with(&[10]);
    g.swap_chains.insert(4, SwapChain { acquired_view_id: Some(77) });
    g.command_buffers.entries[0].1.used_swap_chain = Some(4);
    g.command_buffers.entries[0].1.trackers.views.insert(77);
    g.command_buffers.entries[0].1.trackers.views.insert(78);
    assert_eq!(g.command_encoder_finish(10, &desc()), Ok(10));
    let cb = g.command_buffers.get(10).unwrap();
    assert!(!cb.trackers.views.contains(77));
    assert!(cb.trackers.views.contains(78));
}

#[test]
fn finishing_one_session_leaves_another_alone() {
    let mut g = global_with(&[1, 2]);
    g.command_buffers.entries[1].1.trackers.textures.set(5, 0x9);
    assert_eq!(g.command_encoder_finish(1, &desc()), Ok(1));
    let other = g.command_buffers.get(2).unwrap();
    assert!(other.is_recording);
    assert_eq!(other.trackers.textures.query(5), Some(0x9));
    assert_eq!(g.command_encoder_finish(2, &desc()), Ok(2));
    assert!(!g.command_buffers.get(1).unwrap().is_recording);
}

#[test]
fn debug_markers_target_last_raw_buffer() {
    let mut g = global_with(&[3]);
    g.command_buffers.entries[0].1.raw.push("second");
    assert_eq!(
        g.command_encoder_push_debug_group(3, "group"),
        Ok(MarkerCommand { raw_index: 1, marker: DebugMarker::Begin("group".to_string()) })
    );
    assert_eq!(
        g.command_encoder_insert_debug_marker(3, "mark"),
        Ok(MarkerCommand { raw_index: 1, marker: DebugMarker::Insert("mark".to_string()) })
    );
    assert_eq!(
        g.command_encoder_pop_debug_group(3),
        Ok(MarkerCommand { raw_index: 1, marker: DebugMarker::End })
    );
}

#[test]
fn debug_markers_refused_after_finish_or_unknown() {
    let mut g = global_with(&[3]);
    assert_eq!(
        g.command_encoder_push_debug_group(4, "x"),
        Err(CommandEncoderError::Invalid)
    );
    g.command_encoder_finish(3, &desc()).unwrap();
    assert_eq!(
        g.command_encoder_insert_debug_marker(3, "x"),
        Err(CommandEncoderError::NotRecording)
    );
    assert_eq!(
        g.command_encoder_pop_debug_group(3),
        Err(CommandEncoderError::NotRecording)
    );
}

#[test]
fn insert_barriers_collects_transitions_and_extends_lifetimes() {
    let mut base = TrackerSet::new();
    base.buffers.set(1, 0x1);
    let mut head = TrackerSet::new();
    head.buffers.set(1, 0x2);
    head.textures.set(9, 0x10);
    head.bind_groups.insert(40);
    let b = CommandBuffer::<()>::insert_barriers(&mut base, &head).unwrap();
    assert_eq!(b.buffers, vec![PendingTransition { id: 1, before: Some(0x1), after: 0x2 }]);
    assert_eq!(b.textures, vec![PendingTransition { id: 9, before: None, after: 0x10 }]);
    assert_eq!(base.buffers.query(1), Some(0x2));
    assert_eq!(base.textures.query(9), Some(0x10));
    assert!(base.bind_groups.contains(40));
    assert!(CommandBuffer::<()>::insert_barriers(&mut base, &head).is_none());
}

#[test]
fn insert_barriers_without_changes_emits_nothing() {
    let mut base = TrackerSet::new();
    let mut head = TrackerSet::new();
    head.samplers.insert(2);
    assert!(CommandBuffer::<()>::insert_barriers(&mut base, &head).is_none());
    assert!(base.samplers.contains(2));
}

#[test]
fn usage_conflict_names_resource_and_usage() {
    let c = UsageConflict::Buffer(3, 0x30);
    assert_eq!(c, UsageConflict::Buffer(3, 0x30));
    assert_ne!(c, UsageConflict::Texture(3, 0x30));
}
