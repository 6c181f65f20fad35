use block_canvas::{
    Block, BlockDescription, BlockEditor, BlockId, BlockShape, BlockWidget, Next, PendingLink,
    Pos2, Vec2,
};

struct TestingBlock {}

impl Block for TestingBlock {
    fn describe(&mut self) -> BlockDescription {
        BlockDescription {
            shape: BlockShape::Stack,
            content: vec![vec![
                BlockWidget::Label { text: "move" },
                BlockWidget::NumberEdit { key: "steps", default: 0 },
                BlockWidget::Label { text: "steps" },
                BlockWidget::TextEdit { key: "testing", default: ":3" },
                BlockWidget::Label { text: "abc" },
            ]],
        }
    }

    fn run(&mut self) {}
}

struct BrokenBlock {}

impl Block for BrokenBlock {
    fn describe(&mut self) -> BlockDescription {
        BlockDescription { shape: BlockShape::C { branches: 2 }, content: vec![vec![]] }
    }

    fn run(&mut self) {}
}

fn stack_with_number() -> BlockDescription {
    BlockDescription {
        shape: BlockShape::Stack,
        content: vec![vec![BlockWidget::NumberEdit { key: "n", default: 0 }]],
    }
}

fn cap() -> BlockDescription {
    BlockDescription { shape: BlockShape::Cap, content: vec![vec![BlockWidget::Label { text: "stop" }]] }
}

fn place(editor: &mut BlockEditor, x: i64, y: i64, d: BlockDescription) -> BlockId {
    editor.insert(Pos2::new(x, y), d).expect("well-formed description")
}

fn position(editor: &BlockEditor, id: BlockId) -> Pos2 {
    editor.get(id).unwrap().position
}

/// One frame of dragging `id` by `delta`, as the host loop runs it.
fn drag_frame(editor: &mut BlockEditor, id: BlockId, delta: Vec2, frame: u64) {
    editor.drag_block(id, delta, frame);
    editor.update_snap_target(id);
    editor.propagate_chains();
}

/// The frame in which the drag of `id` ends.
fn release_frame(editor: &mut BlockEditor, id: BlockId) {
    if let Some(link) = editor.release_block(id) {
        editor.commit_link(link);
    }
    editor.propagate_chains();
}

#[test]
fn shape_notches_and_branches() {
    assert!(!BlockShape::Hat.top_notch());
    assert!(BlockShape::Hat.bottom_notch());
    assert_eq!(BlockShape::Hat.branches(), 0);
    assert!(BlockShape::Stack.top_notch());
    assert!(BlockShape::Stack.bottom_notch());
    assert_eq!(BlockShape::Stack.branches(), 0);
    let c = BlockShape::C { branches: 3 };
    assert!(c.top_notch());
    assert!(c.bottom_notch());
    assert_eq!(c.branches(), 3);
    assert!(BlockShape::Cap.top_notch());
    assert!(!BlockShape::Cap.bottom_notch());
    assert_eq!(BlockShape::Cap.branches(), 0);
}

#[test]
fn part_count_must_match_branches() {
    let bad = BlockDescription { shape: BlockShape::C { branches: 3 }, content: vec![vec![], vec![]] };
    assert!(!bad.is_well_formed());
    let zero = BlockDescription { shape: BlockShape::C { branches: 0 }, content: vec![vec![]] };
    assert!(!zero.is_well_formed());
    let empty = BlockDescription { shape: BlockShape::Stack, content: vec![] };
    assert!(!empty.is_well_formed());
    let mut editor = BlockEditor::new();
    assert_eq!(editor.insert(Pos2::new(0, 0), bad), None);
    assert_eq!(editor.len(), 0);
    assert_eq!(editor.add_block(Pos2::new(0, 0), BrokenBlock {}), None);
    assert_eq!(editor.len(), 0);
}

#[test]
fn construction_builds_one_part_per_content_entry() {
    let mut editor = BlockEditor::default();
    let c = place(
        &mut editor,
        0,
        0,
        BlockDescription { shape: BlockShape::C { branches: 2 }, content: vec![vec![], vec![], vec![]] },
    );
    let parts = &editor.get(c).unwrap().parts;
    assert_eq!(parts.len(), 3);
    assert!(parts.iter().all(|p| p.next == Next::Open));
    assert_eq!(parts[0].height(), 40);

    let k = place(&mut editor, 0, 0, cap());
    let parts = &editor.get(k).unwrap().parts;
    assert_eq!(parts.len(), 1);
    assert_eq!(parts[0].next, Next::NotApplicable);

    let h = place(&mut editor, 0, 0, BlockDescription { shape: BlockShape::Hat, content: vec![vec![]] });
    assert_eq!(editor.get(h).unwrap().parts[0].next, Next::Open);
    assert_eq!(editor.len(), 3);
}

#[test]
fn add_block_describes_and_seeds_defaults() {
    let mut editor = BlockEditor::new();
    let id = editor.add_block(Pos2::new(50, 50), TestingBlock {}).unwrap();
    let b = editor.get(id).unwrap();
    assert_eq!(b.position, Pos2::new(50, 50));
    assert_eq!(b.last_touched_frame, 0);
    assert_eq!(b.snap_target, None);
    assert_eq!(b.text_data.len(), 1);
    assert_eq!(b.number_data.len(), 1);
    assert_eq!(editor.text_value(id, &"testing".to_string()), Some(&":3".to_string()));
    assert_eq!(editor.number_value(id, &"steps".to_string()), Some(0));
    assert_eq!(editor.text_value(id, &"move".to_string()), None);
    assert_eq!(editor.number_value(id, &"abc".to_string()), None);
}

#[test]
fn seeding_across_parts() {
    let mut editor = BlockEditor::new();
    let id = place(
        &mut editor,
        0,
        0,
        BlockDescription {
            shape: BlockShape::C { branches: 1 },
            content: vec![
                vec![BlockWidget::NumberEdit { key: "a", default: 7 }, BlockWidget::Label { text: "x" }],
                vec![BlockWidget::TextEdit { key: "b", default: "hi" }, BlockWidget::NumberEdit { key: "c", default: -3 }],
            ],
        },
    );
    assert_eq!(editor.number_value(id, &"a".to_string()), Some(7));
    assert_eq!(editor.number_value(id, &"c".to_string()), Some(-3));
    assert_eq!(editor.text_value(id, &"b".to_string()), Some(&"hi".to_string()));
    assert_eq!(editor.text_value(id, &"x".to_string()), None);
    assert_eq!(editor.get(id).unwrap().text_data.len(), 1);
    assert_eq!(editor.get(id).unwrap().number_data.len(), 2);
}

#[test]
fn field_edits_touch_only_existing_fields() {
    let mut editor = BlockEditor::new();
    let id = editor.add_block(Pos2::new(0, 0), TestingBlock {}).unwrap();
    assert!(editor.set_number_value(id, "steps".to_string(), 12));
    assert!(editor.set_text_value(id, "testing".to_string(), "ok".to_string()));
    assert!(!editor.set_text_value(id, "nope".to_string(), "x".to_string()));
    assert!(!editor.set_number_value(id, "testing".to_string(), 1));
    assert_eq!(editor.number_value(id, &"steps".to_string()), Some(12));
    assert_eq!(editor.text_value(id, &"testing".to_string()), Some(&"ok".to_string()));
    assert_eq!(editor.text_value(id, &"nope".to_string()), None);
}

#[test]
fn snap_exactly_at_threshold_is_excluded() {
    // A's bottom attachment point is at (75, 100).
    let mut editor = BlockEditor::new();
    let a = place(&mut editor, 50, 50, stack_with_number());
    let b = place(&mut editor, 50, 120, cap());
    assert_eq!(editor.find_snap_target(b), None);
    let mut editor = BlockEditor::new();
    let a2 = place(&mut editor, 50, 50, stack_with_number());
    let b2 = place(&mut editor, 50, 119, cap());
    assert_eq!(editor.find_snap_target(b2), Some(a2));
    // 18-24-30 triangle: exactly 30 away on a diagonal
    let mut editor = BlockEditor::new();
    let _a3 = place(&mut editor, 50, 50, stack_with_number());
    let b3 = place(&mut editor, 68, 114, cap());
    assert_eq!(editor.find_snap_target(b3), None);
    let _ = a;
}

#[test]
fn snap_picks_the_closest_candidate() {
    let mut editor = BlockEditor::new();
    let near = place(&mut editor, 50, 50, stack_with_number());
    let _far = place(&mut editor, 60, 50, stack_with_number());
    let d = place(&mut editor, 52, 92, stack_with_number());
    assert_eq!(editor.find_snap_target(d), Some(near));
}

#[test]
fn snap_never_offers_a_slot_that_cannot_link() {
    let mut editor = BlockEditor::new();
    let _c = place(&mut editor, 50, 50, cap());
    let d = place(&mut editor, 50, 90, stack_with_number());
    assert_eq!(editor.find_snap_target(d), None);
}

#[test]
fn snap_never_targets_itself() {
    let mut editor = BlockEditor::new();
    let d = place(&mut editor, 50, 50, stack_with_number());
    assert_eq!(editor.find_snap_target(d), None);
}

#[test]
fn commit_into_occupied_slot_changes_nothing() {
    let mut editor = BlockEditor::new();
    let a = place(&mut editor, 0, 0, stack_with_number());
    let b = place(&mut editor, 0, 100, stack_with_number());
    let c = place(&mut editor, 0, 200, stack_with_number());
    editor.commit_link(PendingLink { upper_block: a, upper_part: 0, next_block: b });
    assert_eq!(editor.get(a).unwrap().parts[0].next, Next::Linked { target: b, height: 0 });
    editor.commit_link(PendingLink { upper_block: a, upper_part: 0, next_block: c });
    assert_eq!(editor.get(a).unwrap().parts[0].next, Next::Linked { target: b, height: 0 });
    editor.commit_link(PendingLink { upper_block: a, upper_part: 5, next_block: c });
    assert_eq!(editor.get(a).unwrap().parts.len(), 1);
}

#[test]
fn commit_into_inapplicable_slot_changes_nothing() {
    let mut editor = BlockEditor::new();
    let k = place(&mut editor, 0, 0, cap());
    let b = place(&mut editor, 0, 100, stack_with_number());
    editor.commit_link(PendingLink { upper_block: k, upper_part: 0, next_block: b });
    assert_eq!(editor.get(k).unwrap().parts[0].next, Next::NotApplicable);
}

#[test]
fn pickup_detaches_from_previous_parent() {
    let mut editor = BlockEditor::new();
    let a = place(&mut editor, 0, 0, stack_with_number());
    let b = place(&mut editor, 0, 40, stack_with_number());
    editor.commit_link(PendingLink { upper_block: a, upper_part: 0, next_block: b });
    editor.drag_block(b, Vec2::new(300, 0), 3);
    editor.update_snap_target(b);
    assert_eq!(editor.get(a).unwrap().parts[0].next, Next::Open);
    assert_eq!(editor.get(b).unwrap().snap_target, None);
    assert_eq!(editor.get(b).unwrap().last_touched_frame, 3);
    assert_eq!(position(&editor, b), Pos2::new(300, 40));
}

#[test]
fn chain_follows_parent_height() {
    let mut editor = BlockEditor::new();
    let a = place(&mut editor, 10, 20, stack_with_number());
    let b = place(&mut editor, 500, 500, stack_with_number());
    editor.commit_link(PendingLink { upper_block: a, upper_part: 0, next_block: b });
    editor.propagate_chains();
    assert_eq!(position(&editor, b), Pos2::new(10, 60));
    editor.layout_block(a);
    editor.resize_part(a, 0, 80, 75);
    assert_eq!(editor.get(a).unwrap().total_height(), 75);
    editor.propagate_chains();
    assert_eq!(position(&editor, b), Pos2::new(10, 95));
}

#[test]
fn chain_settles_one_level_per_pass() {
    let mut editor = BlockEditor::new();
    let a = place(&mut editor, 0, 0, stack_with_number());
    let b = place(&mut editor, 100, 100, stack_with_number());
    let c = place(&mut editor, 200, 200, stack_with_number());
    editor.commit_link(PendingLink { upper_block: a, upper_part: 0, next_block: b });
    editor.commit_link(PendingLink { upper_block: b, upper_part: 0, next_block: c });
    editor.propagate_chains();
    assert_eq!(position(&editor, b), Pos2::new(0, 40));
    assert_eq!(position(&editor, c), Pos2::new(100, 140));
    editor.propagate_chains();
    assert_eq!(position(&editor, c), Pos2::new(0, 80));
}

#[test]
fn drag_and_release_within_range_links() {
    let mut editor = BlockEditor::new();
    let a = place(&mut editor, 50, 50, stack_with_number());
    let b = place(&mut editor, 150, 150, cap());
    drag_frame(&mut editor, b, Vec2::new(-100, -65), 1);
    assert_eq!(position(&editor, b), Pos2::new(50, 85));
    assert_eq!(editor.get(b).unwrap().snap_target, Some(a));
    release_frame(&mut editor, b);
    assert_eq!(editor.get(a).unwrap().parts[0].next, Next::Linked { target: b, height: 0 });
    assert_eq!(editor.get(b).unwrap().snap_target, None);
    let total = editor.get(a).unwrap().total_height() as i64;
    assert_eq!(position(&editor, b), Pos2::new(50, 50 + total));
    assert_eq!(position(&editor, b), Pos2::new(50, 90));
}

#[test]
fn drag_and_release_out_of_range_does_not_link() {
    let mut editor = BlockEditor::new();
    let a = place(&mut editor, 50, 50, stack_with_number());
    let b = place(&mut editor, 150, 150, cap());
    // top attachment point ends 31 units below A's bottom attachment point
    drag_frame(&mut editor, b, Vec2::new(-100, -29), 1);
    assert_eq!(editor.get(b).unwrap().snap_target, None);
    release_frame(&mut editor, b);
    assert_eq!(editor.get(a).unwrap().parts[0].next, Next::Open);
    assert_eq!(position(&editor, b), Pos2::new(50, 121));
    editor.propagate_chains();
    assert_eq!(position(&editor, b), Pos2::new(50, 121));
}

#[test]
fn layout_stacks_parts_with_branch_gaps() {
    let mut editor = BlockEditor::new();
    let c = place(
        &mut editor,
        0,
        0,
        BlockDescription { shape: BlockShape::C { branches: 2 }, content: vec![vec![], vec![], vec![]] },
    );
    editor.layout_block(c);
    let parts = &editor.get(c).unwrap().parts;
    assert_eq!((parts[0].top_offset.x, parts[0].top_offset.y), (0, 0));
    assert_eq!((parts[0].bottom_offset.x, parts[0].bottom_offset.y), (15, 40));
    assert_eq!((parts[1].top_offset.x, parts[1].top_offset.y), (15, 60));
    assert_eq!((parts[1].bottom_offset.x, parts[1].bottom_offset.y), (15, 100));
    assert_eq!((parts[2].top_offset.x, parts[2].top_offset.y), (15, 120));
    assert_eq!((parts[2].bottom_offset.x, parts[2].bottom_offset.y), (0, 160));
    assert_eq!(editor.get(c).unwrap().total_height(), 160);
}

#[test]
fn resize_keeps_minimum_height() {
    let mut editor = BlockEditor::new();
    let a = place(&mut editor, 0, 0, stack_with_number());
    editor.resize_part(a, 0, 120, 10);
    let p = editor.get(a).unwrap().parts[0];
    assert_eq!(p.width, 120);
    assert_eq!(p.height(), 40);
    assert_eq!(p.extent().x, 120);
    editor.resize_part(a, 0, 120, 55);
    assert_eq!(editor.get(a).unwrap().parts[0].height(), 55);
}

#[test]
fn interaction_order_puts_recently_dragged_last() {
    let mut editor = BlockEditor::new();
    let a = place(&mut editor, 0, 0, stack_with_number());
    let b = place(&mut editor, 0, 100, stack_with_number());
    let c = place(&mut editor, 0, 200, stack_with_number());
    editor.drag_block(a, Vec2::new(1, 1), 9);
    editor.drag_block(c, Vec2::new(1, 1), 4);
    assert_eq!(editor.interaction_order(), vec![b, c, a]);
}

#[test]
fn removal_clears_links_and_stale_handles() {
    let mut editor = BlockEditor::new();
    let a = place(&mut editor, 0, 0, stack_with_number());
    let b = place(&mut editor, 0, 40, stack_with_number());
    editor.commit_link(PendingLink { upper_block: a, upper_part: 0, next_block: b });
    let removed = editor.remove_block(b).unwrap();
    assert_eq!(removed.position, Pos2::new(0, 40));
    assert_eq!(editor.get(a).unwrap().parts[0].next, Next::Open);
    assert!(editor.get(b).is_none());
    assert!(editor.remove_block(b).is_none());
    let c = place(&mut editor, 5, 5, cap());
    assert_ne!(b, c);
    assert!(editor.get(b).is_none());
    assert_eq!(editor.len(), 2);
    editor.drag_block(b, Vec2::new(1, 1), 1);
    assert_eq!(position(&editor, c), Pos2::new(5, 5));
}

#[test]
fn handles_are_distinct_and_round_trip_to_bits() {
    let mut editor = BlockEditor::new();
    let a = place(&mut editor, 0, 0, cap());
    let b = place(&mut editor, 0, 0, cap());
    assert_ne!(a, b);
    assert_ne!(a.to_bits(), b.to_bits());
    assert!(a.to_bits() >> 32 != 0);
}

#[test]
fn pan_and_drag_saturate() {
    let mut editor = BlockEditor::new();
    editor.pan(Vec2::new(5, -7));
    assert_eq!(editor.offset(), Vec2::new(5, -7));
    let a = place(&mut editor, i64::MAX - 1, 0, cap());
    editor.drag_block(a, Vec2::new(10, -10), 2);
    assert_eq!(position(&editor, a), Pos2::new(i64::MAX, -10));
    assert_eq!(Pos2::new(1, 2).translate(Vec2::new(i64::MIN, 3)), Pos2::new(i64::MIN + 1, 5));
}
