use innovus::asset::ImageAnimation;
use innovus::render::{EntityRenderer, PieceFrames, PIECES_PER_BATCH};

#[test]
fn renderer_add_get_remove() {
    let mut renderer: EntityRenderer<u32> = EntityRenderer::new();
    let a = renderer.add_piece(10);
    let b = renderer.add_piece(20);
    assert_eq!(renderer.get_piece(&a), Some(&10));
    assert_eq!(renderer.get_piece(&b), Some(&20));
    assert_eq!(renderer.batch_slot_count(), 1);
    *renderer.get_piece_mut(&a).unwrap() = 11;
    assert_eq!(renderer.get_piece(&a), Some(&11));
    assert_eq!(renderer.remove_piece(a), Some(11));
    assert_eq!(renderer.get_piece(&a), None);
    assert_eq!(renderer.remove_piece(a), None);
    assert_eq!(renderer.get_piece(&b), Some(&20));
    let c = renderer.add_piece(30);
    assert_ne!(c, a);
    assert_eq!(renderer.get_piece(&a), None);
    assert_eq!(renderer.piece_handles(), vec![c, b]);
}

#[test]
fn renderer_fills_batches_in_order() {
    let mut renderer: EntityRenderer<usize> = EntityRenderer::new();
    let handles: Vec<_> = (0..PIECES_PER_BATCH + 1).map(|i| renderer.add_piece(i)).collect();
    assert_eq!(renderer.batch_slot_count(), 2);
    assert_eq!(handles[PIECES_PER_BATCH - 1].batch_slot(), 0);
    assert_eq!(handles[PIECES_PER_BATCH].batch_slot(), 1);
    assert_eq!(handles[PIECES_PER_BATCH].piece_slot(), 0);
    // Emptying the second batch drops it; its handle no longer reads.
    let last = handles[PIECES_PER_BATCH];
    assert_eq!(renderer.remove_piece(last), Some(PIECES_PER_BATCH));
    assert_eq!(renderer.get_piece(&last), None);
    // Room in the first batch is used before a new batch is made.
    assert_eq!(renderer.remove_piece(handles[3]), Some(3));
    let again = renderer.add_piece(99);
    assert_eq!(again.batch_slot(), 0);
    assert_eq!(again.piece_slot(), 3);
    assert_eq!(renderer.get_piece(&handles[3]), None);
    assert_eq!(renderer.piece_handles().len(), PIECES_PER_BATCH);
}

#[test]
fn frames_tick_and_wrap() {
    let animation = Some(ImageAnimation { frame_count: 3, frame_time: 2 });
    let mut frames = PieceFrames::start(animation);
    assert_eq!(frames, PieceFrames { frame: 0, frame_timer: 2 });
    assert!(!frames.tick(animation));
    assert!(frames.tick(animation));
    assert_eq!(frames, PieceFrames { frame: 1, frame_timer: 2 });
    frames.tick(animation);
    frames.tick(animation);
    frames.tick(animation);
    assert!(frames.tick(animation));
    assert_eq!(frames.frame, 0);
    assert!(!frames.tick(None));
    assert!(frames.set_frame(2));
    assert!(!frames.set_frame(2));
    let still = PieceFrames::start(None);
    assert_eq!(still, PieceFrames { frame: 0, frame_timer: 0 });
    let fast = Some(ImageAnimation { frame_count: 2, frame_time: 0 });
    let mut f = PieceFrames::start(fast);
    assert!(f.tick(fast));
    assert!(f.tick(fast));
    assert_eq!(f.frame, 0);
}
