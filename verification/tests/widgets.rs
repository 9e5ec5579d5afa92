use std::collections::HashSet;
use waybar_vdesk::arrange::{move_focused_first, sort_entries_by_name, DesktopEntry};
use waybar_vdesk::vdesk::VirtualDesktop;
use waybar_vdesk::widgets::{
    compute_reorder_moves, ClassOp, ModuleConfig, SortStrategy, VirtualDesktopWidget,
    WidgetCommand, WidgetManager,
};

fn create_test_vdesk(id: u32, name: &str, focused: bool, populated: bool) -> VirtualDesktop {
    VirtualDesktop {
        id,
        name: name.to_string(),
        focused,
        populated,
        window_count: if populated { 2 } else { 0 },
        workspaces: if populated { vec![id, id + 10] } else { vec![] },
        status: String::new(),
    }
}

fn test_config() -> ModuleConfig {
    ModuleConfig { show_empty: false, sort_by: SortStrategy::Number }
}

fn entry(vdesk: VirtualDesktop) -> DesktopEntry {
    let display_text = vdesk.name.clone();
    let tooltip_text = format!("Virtual Desktop {}: {}", vdesk.id, vdesk.name);
    DesktopEntry { vdesk, display_text, tooltip_text }
}

fn class_names(ops: &[ClassOp]) -> Vec<String> {
    ops.iter()
        .map(|op| match op {
            ClassOp::Add(c) => format!("+{}", c),
            ClassOp::Remove(c) => format!("-{}", c),
        })
        .collect()
}

#[test]
fn test_widget_creation() {
    let config = test_config();

    let vdesk = create_test_vdesk(1, "Test Desktop", true, true);
    let widget = VirtualDesktopWidget::new(
        &vdesk,
        "Test Desktop".to_string(),
        "Virtual Desktop 1: Test Desktop".to_string(),
        &config,
    );

    assert_eq!(widget.vdesk_id, 1);
    assert_eq!(widget.display_text, "Test Desktop");
    assert!(widget.focused);
    assert!(widget.is_visible(&config));
    assert_eq!(widget.initial_classes(), vec!["vdesk-focused".to_string()]);
}

#[test]
fn test_widget_update_detection() {
    let config = test_config();

    let vdesk = create_test_vdesk(1, "Test Desktop", false, true);
    let mut widget = VirtualDesktopWidget::new(
        &vdesk,
        "Test Desktop".to_string(),
        "Tooltip".to_string(),
        &config,
    );

    // Test no change
    let updated = widget.update_if_changed(
        &vdesk,
        "Test Desktop".to_string(),
        "Tooltip".to_string(),
        &config,
    );
    assert!(!updated.updated);

    // Test display text change
    let updated = widget.update_if_changed(
        &vdesk,
        "New Text".to_string(),
        "Tooltip".to_string(),
        &config,
    );
    assert!(updated.updated);
    assert_eq!(widget.display_text, "New Text");

    // Test focus change
    let focused_vdesk = VirtualDesktop { focused: true, ..vdesk };
    let updated = widget.update_if_changed(
        &focused_vdesk,
        "New Text".to_string(),
        "Tooltip".to_string(),
        &config,
    );
    assert!(updated.updated);
    assert!(widget.focused);

    // Test populated change
    let unpopulated_vdesk = VirtualDesktop { populated: false, ..focused_vdesk };
    let updated = widget.update_if_changed(
        &unpopulated_vdesk,
        "New Text".to_string(),
        "Tooltip".to_string(),
        &config,
    );
    assert!(updated.updated);
    assert!(!widget.populated);
}

#[test]
fn test_widget_manager_updates() {
    let vdesks = vec![
        create_test_vdesk(1, "Desktop 1", true, true),
        create_test_vdesk(2, "Desktop 2", false, true),
    ];

    // Test that the visibility logic works correctly
    let visible_ids: HashSet<u32> = vdesks.iter().map(|vd| vd.id).collect();
    assert!(visible_ids.contains(&1));
    assert!(visible_ids.contains(&2));
    assert!(!visible_ids.contains(&3));

    let mut manager = WidgetManager::new(test_config());
    let entries: Vec<DesktopEntry> = vdesks.into_iter().map(entry).collect();
    manager.update_widgets(&entries);
    assert!(manager.has_widget(1));
    assert!(manager.has_widget(2));
    assert!(!manager.has_widget(3));
    assert_eq!(manager.widget_count(), 2);
}

#[test]
fn test_widget_order_tracking() {
    let order1 = vec![1, 2, 3];
    let order2 = vec![1, 3, 2];
    let order3 = vec![1, 2, 3];

    // Test order comparison
    assert_ne!(order1, order2);
    assert_eq!(order1, order3);

    // Test order change detection
    let mut current_order = vec![1, 2, 3];
    let new_order = vec![3, 1, 2];

    if new_order != current_order {
        current_order = new_order.clone();
    }

    assert_eq!(current_order, vec![3, 1, 2]);

    // The manager tracks the order of its buttons the same way.
    let mut manager = WidgetManager::new(test_config());
    let first: Vec<DesktopEntry> = [1, 2, 3]
        .iter()
        .map(|&id| entry(create_test_vdesk(id, "d", false, true)))
        .collect();
    manager.update_widgets(&first);
    assert_eq!(manager.widget_order(), &[1, 2, 3]);
    let second: Vec<DesktopEntry> = [3, 1, 2]
        .iter()
        .map(|&id| entry(create_test_vdesk(id, "d", false, true)))
        .collect();
    manager.update_widgets(&second);
    assert_eq!(manager.widget_order(), &[3, 1, 2]);
}

#[test]
fn test_optimized_reordering_logic() {
    let current_order = vec![1, 2, 3, 4, 5];
    let new_order = vec![1, 3, 2, 5, 4];

    let mut moves_needed = compute_reorder_moves(&current_order, &new_order);

    // Should only move widgets 2, 3, 4, 5 (widget 1 stays in position 0)
    moves_needed.sort_by_key(|&(id, _)| id);
    assert_eq!(moves_needed, vec![(2, 2), (3, 1), (4, 4), (5, 3)]);
}

#[test]
fn test_reordering_edge_cases() {
    // Test no changes needed
    let order = vec![1, 2, 3];
    let moves_needed = compute_reorder_moves(&order, &order);
    assert!(moves_needed.is_empty());

    // Test complete reversal
    let current_order = vec![1, 2, 3];
    let new_order = vec![3, 2, 1];
    let mut moves_needed = compute_reorder_moves(&current_order, &new_order);

    // Should move widgets 1 and 3 (widget 2 stays in middle)
    moves_needed.sort_by_key(|&(id, _)| id);
    assert_eq!(moves_needed, vec![(1, 2), (3, 0)]);
}

#[test]
fn test_reordering_performance_characteristics() {
    // Test that optimization reduces operations for large widget sets
    let large_order: Vec<u32> = (1..=100).collect();

    // Scenario 1: No changes (should be O(1))
    let moves_needed = compute_reorder_moves(&large_order, &large_order);
    assert_eq!(moves_needed.len(), 0);

    // Scenario 2: Single element move (should be O(1))
    let mut single_move_order = large_order.clone();
    single_move_order.swap(0, 1); // Move first element to second position
    let moves_needed = compute_reorder_moves(&large_order, &single_move_order);

    // Only 2 widgets should need to move (the swapped ones)
    assert_eq!(moves_needed.len(), 2);

    // Scenario 3: Partial reordering (should be O(k) where k < n)
    let mut partial_reorder = large_order.clone();
    // Reverse only the first 10 elements
    partial_reorder[0..10].reverse();
    let moves_needed = compute_reorder_moves(&large_order, &partial_reorder);

    // Should only move the affected elements (8 out of 10, since 2 stay in place)
    assert!(moves_needed.len() <= 10);
    assert!(moves_needed.len() < large_order.len());

    // Verify that elements 11-100 don't need to move
    let moved_ids: HashSet<u32> = moves_needed.iter().map(|&(id, _)| id).collect();

    for id in 11..=100 {
        assert!(!moved_ids.contains(&id), "Widget {} should not need to move", id);
    }
}

#[test]
fn new_widgets_are_not_moved_and_duplicates_count_once() {
    // A widget that is not in the current order is placed on creation.
    assert_eq!(compute_reorder_moves(&[1, 2], &[3, 1, 2]), vec![(1, 1), (2, 2)]);
    assert!(compute_reorder_moves(&[], &[1, 2, 3]).is_empty());
    // A repeated id counts at its last place.
    assert_eq!(compute_reorder_moves(&[1, 2], &[2, 1, 2]), vec![(1, 1), (2, 2)]);
}

#[test]
fn status_and_focus_changes_swap_classes() {
    let config = test_config();
    let mut vdesk = create_test_vdesk(4, "Four", false, false);
    vdesk.status = "Active".to_string();
    let mut widget =
        VirtualDesktopWidget::new(&vdesk, "Four".to_string(), "tip".to_string(), &config);
    assert!(!widget.is_visible(&config));
    assert_eq!(
        widget.initial_classes(),
        vec![
            "vdesk-unfocused".to_string(),
            "vdesk-status-active".to_string(),
            "vdesk-status-active-unfocused".to_string()
        ]
    );

    let mut next = create_test_vdesk(4, "Four", true, false);
    next.status = "Idle".to_string();
    let update = widget.update_if_changed(&next, "Four".to_string(), "tip".to_string(), &config);
    assert!(update.updated);
    assert_eq!(update.label, None);
    assert_eq!(update.tooltip, None);
    assert_eq!(update.visible, Some(true));
    assert_eq!(
        class_names(&update.class_ops),
        vec![
            "-vdesk-unfocused",
            "+vdesk-focused",
            "-vdesk-status-active",
            "+vdesk-status-idle",
            "-vdesk-status-active-unfocused",
            "+vdesk-status-idle-focused"
        ]
    );

    // The same update again changes nothing.
    let again = widget.update_if_changed(&next, "Four".to_string(), "tip".to_string(), &config);
    assert!(!again.updated);
    assert!(again.class_ops.is_empty());
    assert_eq!(again.visible, None);

    // Clearing the status only removes classes.
    let mut cleared = create_test_vdesk(4, "Four", true, false);
    cleared.status = String::new();
    let update =
        widget.update_if_changed(&cleared, "Four!".to_string(), "tip2".to_string(), &config);
    assert_eq!(update.label.as_deref(), Some("Four!"));
    assert_eq!(update.tooltip.as_deref(), Some("tip2"));
    assert_eq!(
        class_names(&update.class_ops),
        vec!["-vdesk-status-idle", "-vdesk-status-idle-focused"]
    );
}

fn names(entries: &[DesktopEntry]) -> Vec<(String, u32)> {
    entries.iter().map(|e| (e.vdesk.name.clone(), e.vdesk.id)).collect()
}

#[test]
fn sorting_by_name_is_stable() {
    let entries = vec![
        entry(create_test_vdesk(1, "beta", false, true)),
        entry(create_test_vdesk(2, "alpha", false, true)),
        entry(create_test_vdesk(3, "beta", false, true)),
        entry(create_test_vdesk(4, "Alpha", false, true)),
        entry(create_test_vdesk(5, "", false, true)),
    ];
    let sorted = sort_entries_by_name(entries);
    assert_eq!(
        names(&sorted),
        vec![
            ("".to_string(), 5),
            ("Alpha".to_string(), 4),
            ("alpha".to_string(), 2),
            ("beta".to_string(), 1),
            ("beta".to_string(), 3)
        ]
    );
}

#[test]
fn focused_desktop_moves_to_the_front() {
    let mut entries = vec![
        entry(create_test_vdesk(1, "a", false, true)),
        entry(create_test_vdesk(2, "b", true, true)),
        entry(create_test_vdesk(3, "c", true, true)),
    ];
    move_focused_first(&mut entries);
    assert_eq!(entries.iter().map(|e| e.vdesk.id).collect::<Vec<_>>(), vec![2, 1, 3]);

    let mut none_focused = vec![
        entry(create_test_vdesk(1, "a", false, true)),
        entry(create_test_vdesk(2, "b", false, true)),
    ];
    move_focused_first(&mut none_focused);
    assert_eq!(none_focused.iter().map(|e| e.vdesk.id).collect::<Vec<_>>(), vec![1, 2]);
}

#[test]
fn manager_creates_then_updates_then_reorders() {
    let mut manager =
        WidgetManager::new(ModuleConfig { show_empty: false, sort_by: SortStrategy::Name });
    let entries = vec![
        entry(create_test_vdesk(1, "zeta", false, true)),
        entry(create_test_vdesk(2, "alpha", true, false)),
        entry(create_test_vdesk(3, "mid", false, false)),
    ];
    let commands = manager.update_widgets(&entries);
    assert_eq!(commands.len(), 4);
    match &commands[0] {
        WidgetCommand::Create { vdesk_id, position, label, visible, .. } => {
            assert_eq!(*vdesk_id, 2);
            assert_eq!(*position, 0);
            assert_eq!(label, "alpha");
            assert!(*visible);
        }
        other => panic!("unexpected command {:?}", other),
    }
    match &commands[1] {
        WidgetCommand::Create { vdesk_id, position, visible, .. } => {
            assert_eq!(*vdesk_id, 3);
            assert_eq!(*position, 1);
            assert!(!*visible);
        }
        other => panic!("unexpected command {:?}", other),
    }
    match &commands[3] {
        WidgetCommand::Reorder { moves, optimized } => {
            assert!(moves.is_empty());
            assert!(*optimized);
        }
        other => panic!("unexpected command {:?}", other),
    }
    assert_eq!(manager.widget_order(), &[2, 3, 1]);
    assert_eq!(manager.widget_count(), 3);
    assert_eq!(manager.config().sort_by, SortStrategy::Name);

    // The same desktops again: only quiet updates, no reorder.
    let commands = manager.update_widgets(&entries);
    assert_eq!(commands.len(), 3);
    for c in &commands {
        match c {
            WidgetCommand::Update { update, .. } => assert!(!update.updated),
            other => panic!("unexpected command {:?}", other),
        }
    }

    // A rename changes the order: buttons move.
    let renamed = vec![
        entry(create_test_vdesk(1, "aaa", false, true)),
        entry(create_test_vdesk(2, "alpha", true, false)),
        entry(create_test_vdesk(3, "mid", false, false)),
    ];
    let commands = manager.update_widgets(&renamed);
    assert_eq!(manager.widget_order(), &[1, 2, 3]);
    match commands.last().unwrap() {
        WidgetCommand::Reorder { moves, optimized } => {
            assert_eq!(moves, &vec![(1, 0), (2, 1), (3, 2)]);
            assert!(!*optimized);
        }
        other => panic!("unexpected command {:?}", other),
    }
}

fn apply_ops(classes: &mut Vec<String>, ops: &[ClassOp]) {
    for op in ops {
        match op {
            ClassOp::Add(c) => {
                if !classes.contains(c) {
                    classes.push(c.clone());
                }
            }
            ClassOp::Remove(c) => classes.retain(|x| x != c),
        }
    }
}

fn sorted(mut v: Vec<String>) -> Vec<String> {
    v.sort();
    v
}

#[test]
fn updated_button_matches_a_new_button() {
    let config = test_config();
    let mut old = create_test_vdesk(5, "Five", true, true);
    old.status = "Busy".to_string();
    let mut widget = VirtualDesktopWidget::new(&old, "Five".to_string(), "t".to_string(), &config);
    let mut classes = widget.initial_classes();

    let mut new = create_test_vdesk(5, "Five", false, true);
    new.status = "idle".to_string();
    let update = widget.update_if_changed(&new, "Five".to_string(), "t".to_string(), &config);
    apply_ops(&mut classes, &update.class_ops);
    let fresh = VirtualDesktopWidget::new(&new, "Five".to_string(), "t".to_string(), &config);
    assert_eq!(sorted(classes), sorted(fresh.initial_classes()));
}

#[test]
fn colliding_status_names_lose_a_class() {
    // Status "a" while focused, then status "a-focused": the new status class
    // equals the old status-and-focus class, which the swap removes.
    let config = test_config();
    let mut old = create_test_vdesk(6, "Six", true, true);
    old.status = "a".to_string();
    let mut widget = VirtualDesktopWidget::new(&old, "Six".to_string(), "t".to_string(), &config);
    let mut classes = widget.initial_classes();
    let mut new = create_test_vdesk(6, "Six", true, true);
    new.status = "a-focused".to_string();
    let update = widget.update_if_changed(&new, "Six".to_string(), "t".to_string(), &config);
    apply_ops(&mut classes, &update.class_ops);
    assert!(!classes.contains(&"vdesk-status-a-focused".to_string()));
}
