use wgpu_core::pass::{BasePass, BasePassRef};
use wgpu_core::push_constant::{push_constant_clear, PushConstantWrite, PUSH_CONSTANT_CLEAR_WORDS};

#[test]
fn owned_stream_round_trips_through_borrowed_view() {
    let commands = [1u16, 2, 3];
    let offsets = [256u32, 512];
    let strings = b"label".to_vec();
    let words = [7u32, 8, 9, 10];
    let view = BasePassRef {
        commands: &commands,
        dynamic_offsets: &offsets,
        string_data: &strings,
        push_constant_data: &words,
    };
    let owned = BasePass::from_ref(view);
    let back = owned.as_ref();
    assert_eq!(back.commands, view.commands);
    assert_eq!(back.dynamic_offsets, view.dynamic_offsets);
    assert_eq!(back.string_data, view.string_data);
    assert_eq!(back.push_constant_data, view.push_constant_data);
}

#[test]
fn new_stream_is_empty() {
    let p: BasePass<u8> = BasePass::new();
    let v = p.as_ref();
    assert!(v.commands.is_empty());
    assert!(v.dynamic_offsets.is_empty());
    assert!(v.string_data.is_empty());
    assert!(v.push_constant_data.is_empty());
}

#[test]
fn push_constant_clear_splits_into_two_writes() {
    assert_eq!(
        push_constant_clear(0, 300),
        vec![
            PushConstantWrite { offset: 0, size_words: 64 },
            PushConstantWrite { offset: 256, size_words: 11 },
        ]
    );
}

#[test]
fn push_constant_clear_starts_at_offset() {
    assert_eq!(
        push_constant_clear(16, 8),
        vec![PushConstantWrite { offset: 16, size_words: 2 }]
    );
}

#[test]
fn push_constant_clear_of_nothing_writes_nothing() {
    assert!(push_constant_clear(32, 0).is_empty());
}

#[test]
fn push_constant_clear_exact_multiple_of_chunk() {
    let w = push_constant_clear(4, 512);
    assert_eq!(w.len(), 2);
    assert_eq!(w[0], PushConstantWrite { offset: 4, size_words: PUSH_CONSTANT_CLEAR_WORDS });
    assert_eq!(w[1], PushConstantWrite { offset: 260, size_words: PUSH_CONSTANT_CLEAR_WORDS });
}
